//! Lowering expressions, statements and blocks keeps the state well formed.

use crate::ast::{BinaryOp, Block, Callee, Expr, ExprKind, ForRange, Literal, Stmt};
use crate::diag::{error_view, Span};
use crate::ir::{ConstView, InstView, ProcTypeView, TerminatorView, ValueId};
use crate::layout::lays_out;
use crate::lower::assigned::assigned_in_block;
use crate::lower::lowering::{
    annotated_heading, arg_lowered, args_lowered, arm_lowered, assign_lowered, binding_lowered,
    block_lowered, branch_names, branches_lowered, call_lowered, combination_lowered, counted_loop,
    delete_lowered, do_while_lowered, elements_lowered, extended, fields_lowered, for_lowered,
    format_lowered, if_lowered, insert_lowered, let_lowered, lowered, lowered_here, overwritten,
    public_assign_lowered, refilled, relation_lowered, replaced, replaced_by_query, result_args,
    sequence_lowered, shipped, stmt_lowered, stmts_lowered, template_of, transaction_lowered,
    truncate_lowered, tuple_lowered, tuples_lowered, union_source, update_lowered, update_root,
    values_lowered, where_lowered, while_lowered,
};
use crate::lower::patterns::{needs_release, unwrapped_heading, wrapped_heading};
use crate::lower::relational::{attr_ref, built, sub_keep, sub_names, sub_renames, wraps_of};
use crate::lower::state::{chunks_view, name_index, names_in, RequestView, State};
use crate::lower::steps::{
    assigned_by_statement, attempted, builtin, carried_first, cells_with, consumed_refs,
    current_values, delete_message, element_type, fresh_first, guarded, has_placeholder,
    in_process, introduced_first, introduced_names, loads_first, loop_opened, loop_var_bound,
    offered, operator_of, param_names, prior_values, rebound, self_message, sequence_bounds,
    sequence_held, shape_message, stores_first, taken_over, var_params, widened, with_values,
    write_allowed, LoopVar, Vars,
};
use crate::lower::valid::blocks::{
    handed_on, lemma_both_values, lemma_handed_on, lemma_leaves_fresh, lemma_leaves_jump,
    lemma_leaves_lead_on, lemma_leaves_none, lemma_leaves_nothing, lemma_leaves_on,
    lemma_loop_closed, lemma_loop_opened, lemma_merged, lemma_no_params, lemma_values_later,
    lemma_vars_later, merge_count,
};
use crate::lower::valid::explained::{lemma_tells_on, tells};
use crate::lower::valid::patterns::{
    lemma_bracket, lemma_close, lemma_constant, lemma_dml, lemma_element,
    lemma_empty_relation, lemma_oper, lemma_project, lemma_release_scope, lemma_release_temp,
    lemma_release_unbound, lemma_rename, lemma_restructure, lemma_retain_escaping, lemma_subtract,
    lemma_symbol_kept, lemma_symbols, lemma_to_text, lemma_type_later, lemma_unite,
    lemma_unlowered,
};
use crate::lower::valid::primitives::{
    are_fresh, group_reaches, group_runs, is_type, lemma_add_pending, lemma_ask, lemma_begin_body,
    lemma_bind, lemma_bind_alias, lemma_bind_pending, lemma_bind_template, lemma_body_closes,
    lemma_declare, lemma_define, lemma_define_emit, lemma_diagnose, lemma_emit, lemma_enter,
    lemma_extend_name, lemma_finish_block, lemma_grows_on, lemma_intern, lemma_leave, lemma_local,
    lemma_plan, lemma_pop_scope, lemma_push_scope, lemma_rebind, lemma_relation_id,
    lemma_release_deferred, lemma_runs_here, lemma_take_param, lemma_target_later,
    lemma_tells_through, lemma_where_name, reaches,
};
use crate::lower::valid::steps::{
    are_bound, are_plain, are_vars, is_loop_var, is_maybe, lemma_assigned_by_statement,
    lemma_attempted, lemma_called, lemma_carried_first, lemma_cells_with, lemma_combined_values,
    lemma_current_values, lemma_extracted, lemma_field_read, lemma_formatted, lemma_fresh_count,
    lemma_fresh_first, lemma_guarded, lemma_in_process, lemma_introduced_first, lemma_literal,
    lemma_loaded, lemma_loads_first, lemma_loop_var_bound, lemma_name, lemma_offered,
    lemma_printed, lemma_prior_values, lemma_public_updated, lemma_rebound, lemma_relation_made,
    lemma_rows_shipped, lemma_scalar_applied, lemma_sequence_bounds, lemma_sequence_held,
    lemma_sequence_made, lemma_stored, lemma_stores_first, lemma_taken_over, lemma_tuple_made,
    lemma_write_allowed,
};
use crate::lower::valid::{
    are_values, grows, is_heading, is_value, may_write, param_values, runs, sound, unassigned,
};
use crate::rel_analysis::add_each;
use crate::rel_expr::RelView;
use crate::text::{name_pairs_of, names_of, Name};
use crate::types::{canonical, Type};
use vstd::multiset::Multiset;
use vstd::prelude::*;

verus! {

/// A state in which lowering has stopped is reached by its tables alone.
proof fn lemma_stopped(a: State, b: State)
    requires
        grows(a, b),
        b.stop is Some,
    ensures
        runs(a, b),
{
    reveal(runs);
}

pub proof fn lemma_lowered(st: State, e: Expr)
    requires
        sound(st),
    ensures
        sound(lowered(st, e).0),
        runs(st, lowered(st, e).0),
        is_value(lowered(st, e).0, lowered(st, e).1),
    decreases e, 20nat, 0nat,
{
    broadcast use group_runs;

    lemma_attempted(st, e);
    let (st1, v) = attempted(st, e);
    if v is None {
        lemma_guarded(st1, e);
        lemma_lowered_here(guarded(st1, e), e);
    }
}

proof fn lemma_lowered_here(st: State, e: Expr)
    requires
        sound(st),
    ensures
        sound(lowered_here(st, e).0),
        runs(st, lowered_here(st, e).0),
        is_value(lowered_here(st, e).0, lowered_here(st, e).1),
    decreases e, 10nat, 0nat,
{
    broadcast use group_runs;

    match e.kind {
        ExprKind::Literal(l) => lemma_literal(st, l),
        ExprKind::Call { callee, args } => match callee {
            Callee::Name(name) => lemma_call(st, name@, args@, None),
            Callee::Method { receiver, method } => {
                lemma_lowered(st, *receiver);
                let (st1, v) = lowered(st, *receiver);
                lemma_call(st1, method@, args@, Some(v));
            },
        },
        ExprKind::Transaction { body } => lemma_transaction(st, body),
        ExprKind::TupleLit { fields } => lemma_tuple(st, fields@),
        ExprKind::RelationLit { tuples } => lemma_relation(st, tuples@),
        ExprKind::SequenceLit { elements } => lemma_sequence(st, e.span, elements@),
        ExprKind::FieldAccess { base, field } => {
            lemma_lowered(st, *base);
            let (st1, src) = lowered(st, *base);
            lemma_field_read(st1, src, field@);
        },
        ExprKind::BoolLit(b) => lemma_constant(st, ConstView::Boolean(b), ProcTypeView::Boolean),
        ExprKind::Binary { op, lhs, rhs } => {
            if op == BinaryOp::Where {
                lemma_where(st, e);
            } else {
                match operator_of(op) {
                    Some(operator) => {
                        lemma_lowered(st, *lhs);
                        let (st1, l) = lowered(st, *lhs);
                        lemma_lowered(st1, *rhs);
                        let (st2, r) = lowered(st1, *rhs);
                        lemma_scalar_applied(st2, operator, l, r);
                    },
                    None => lemma_combination(st, e),
                }
            }
        },
        ExprKind::Extract { operand } => {
            lemma_lowered(st, *operand);
            let (st1, src) = lowered(st, *operand);
            lemma_extracted(st1, src);
        },
        ExprKind::Project { input, attrs, all_but } => {
            lemma_lowered(st, *input);
            let (st1, src) = lowered(st, *input);
            lemma_project(st1, src, names_of(attrs@), all_but);
            let (st2, _) = st1.project(src, names_of(attrs@), all_but);
            lemma_release_unbound(st2, src);
        },
        ExprKind::Replace { input, pairs } => {
            lemma_lowered(st, *input);
            let (st1, src) = lowered(st, *input);
            lemma_replaced(st1, src, pairs@);
        },
        ExprKind::Rename { input, renames } => {
            lemma_lowered(st, *input);
            let (st1, src) = lowered(st, *input);
            lemma_rename(st1, src, name_pairs_of(renames@));
            let (st2, _) = st1.rename(src, name_pairs_of(renames@));
            lemma_release_unbound(st2, src);
        },
        ExprKind::Wrap { input, wraps } => {
            lemma_lowered(st, *input);
            let (st1, src) = lowered(st, *input);
            lemma_unlowered(st1);
            if let Some(id) = st1.relation_id(src) {
                let h = st1.heading_at(id);
                let wrapped = wrapped_heading(h, wraps_of(h, wraps@));
                lemma_restructure(st1, src, wrapped);
                lemma_release_unbound(st1.restructure(src, wrapped).0, src);
            }
        },
        ExprKind::Unwrap { input, attrs } => {
            lemma_lowered(st, *input);
            let (st1, src) = lowered(st, *input);
            lemma_unlowered(st1);
            if let Some(id) = st1.relation_id(src) {
                let unwrapped = unwrapped_heading(st1.heading_at(id), names_of(attrs@));
                lemma_restructure(st1, src, unwrapped);
                lemma_release_unbound(st1.restructure(src, unwrapped).0, src);
            }
        },
        ExprKind::Extend { input, pairs } => {
            lemma_lowered(st, *input);
            let (st1, src) = lowered(st, *input);
            lemma_extended(st1, src, names_in(pairs@), pairs@);
            let (st2, _) = extended(st1, src, names_in(pairs@), pairs@);
            lemma_release_unbound(st2, src);
        },
        ExprKind::Tclose { input, attrs } => {
            lemma_lowered(st, *input);
            let (st1, src) = lowered(st, *input);
            if attrs@.len() == 0 {
                lemma_close(st1, src);
                lemma_release_unbound(st1.close(src).0, src);
            } else {
                lemma_project(st1, src, names_of(attrs@), false);
                let (st2, narrowed) = st1.project(src, names_of(attrs@), false);
                lemma_release_unbound(st2, src);
                let st3 = st2.release_unbound(src);
                lemma_close(st3, narrowed);
                lemma_release_unbound(st3.close(narrowed).0, narrowed);
            }
        },
        ExprKind::Index { sequence, index } => {
            lemma_lowered(st, *sequence);
            let (st1, seq) = lowered(st, *sequence);
            lemma_unlowered(st1);
            lemma_relation_id(st1, seq);
            if let ProcTypeView::Sequence(elem) = st1.type_of(seq) {
                lemma_lowered(st1, *index);
                let (st2, i) = lowered(st1, *index);
                lemma_type_later(st1, st2, *elem);
                lemma_element(st2, seq, i, *elem);
            }
        },
        ExprKind::If { condition, then_body, else_body } => lemma_if(st, e),
        ExprKind::NameRef(name) => lemma_name(st, e.span, name@),
    }
}

proof fn lemma_call(
    st: State,
    name: Name,
    args: Seq<(String, Expr)>,
    receiver: Option<ValueId>,
)
    requires
        sound(st),
        is_maybe(st, receiver),
    ensures
        sound(call_lowered(st, name, args, receiver).0),
        runs(st, call_lowered(st, name, args, receiver).0),
        is_value(
            call_lowered(st, name, args, receiver).0,
            call_lowered(st, name, args, receiver).1,
        ),
    decreases args, 5nat, 0nat,
{
    broadcast use group_runs;

    lemma_symbols();
    if name == "write_relation"@ {
        lemma_arg(st, "rel"@, args, None);
        let (st1, rel) = arg_lowered(st, "rel"@, args, None);
        lemma_printed(st1, rel);
    } else if name == "format"@ {
        lemma_format(st, args);
    } else if name == "to_text"@ {
        lemma_arg(st, "self"@, args, receiver);
        let (st1, v) = arg_lowered(st, "self"@, args, receiver);
        lemma_to_text(st1, v);
    } else if name == "write_line"@ && names_in(args).contains("template"@) {
        lemma_format(st, args);
        let (st1, text) = format_lowered(st, args);
        let params = seq![("message"@, ProcTypeView::Text)];
        lemma_declare(st1, "write_line"@, "coddl_write_line"@, params, ProcTypeView::Unit);
        let st2 = st1.declare(
            "write_line"@,
            "coddl_write_line"@,
            params,
            ProcTypeView::Unit,
        );
        let inst = InstView::Call {
            dst: None,
            callee: "coddl_write_line"@,
            args: seq![text],
            return_type: ProcTypeView::Unit,
        };
        lemma_emit(st2, inst);
        let st3 = st2.emit(inst);
        lemma_release_temp(st3, text);
        lemma_define(st3.release_temp(text), ProcTypeView::Unit);
    } else {
        lemma_unlowered(st);
        lemma_oper(st, name);
        match st.oper(name) {
            Some(sig) => {
                let names = param_names(sig.0);
                lemma_args(st, names, names.len(), args, receiver);
                let (st1, vs) = args_lowered(st, names, names.len(), args, receiver);
                lemma_type_later(st, st1, sig.1);
                lemma_called(st1, name, vs, sig.1, false);
            },
            None => match builtin(name) {
                Some(sig) => {
                    let names = param_names(sig.1);
                    lemma_args(st, names, names.len(), args, receiver);
                    let (st1, vs) = args_lowered(st, names, names.len(), args, receiver);
                    lemma_declare(st1, name, sig.0, sig.1, sig.2);
                    let st2 = st1.declare(name, sig.0, sig.1, sig.2);
                    lemma_called(st2, sig.0, vs, sig.2, true);
                },
                None => {},
            },
        }
    }
}

proof fn lemma_arg(st: State, name: Name, args: Seq<(String, Expr)>, receiver: Option<ValueId>)
    requires
        sound(st),
        is_maybe(st, receiver),
    ensures
        sound(arg_lowered(st, name, args, receiver).0),
        runs(st, arg_lowered(st, name, args, receiver).0),
        is_value(
            arg_lowered(st, name, args, receiver).0,
            arg_lowered(st, name, args, receiver).1,
        ),
    decreases args, 0nat, 0nat,
{
    lemma_runs_here(st);
    lemma_unlowered(st);
    if name == "self"@ && receiver is Some {
    } else {
        let i = name_index(names_in(args), name);
        if i < args.len() {
            assert(decreases_to!(args => args[i as int]));
            assert(decreases_to!(args[i as int] => args[i as int].1));
            lemma_lowered(st, args[i as int].1);
        }
    }
}

proof fn lemma_args(
    st: State,
    names: Seq<Name>,
    n: nat,
    args: Seq<(String, Expr)>,
    receiver: Option<ValueId>,
)
    requires
        sound(st),
        is_maybe(st, receiver),
    ensures
        sound(args_lowered(st, names, n, args, receiver).0),
        runs(st, args_lowered(st, names, n, args, receiver).0),
        are_values(
            args_lowered(st, names, n, args, receiver).0,
            args_lowered(st, names, n, args, receiver).1,
        ),
    decreases args, 1nat, n,
{
    broadcast use group_runs;

    if n == 0 {
        lemma_runs_here(st);
    } else {
        lemma_args(st, names, (n - 1) as nat, args, receiver);
        let (before, _) = args_lowered(st, names, (n - 1) as nat, args, receiver);
        lemma_arg(before, names[n - 1], args, receiver);
    }
}

proof fn lemma_format(st: State, args: Seq<(String, Expr)>)
    requires
        sound(st),
    ensures
        sound(format_lowered(st, args).0),
        runs(st, format_lowered(st, args).0),
        is_value(format_lowered(st, args).0, format_lowered(st, args).1),
    decreases args, 2nat, 0nat,
{
    broadcast use group_runs;

    lemma_unlowered(st);
    if let Some(chunks) = template_of(st, args) {
        if has_placeholder(chunks) && names_in(args).contains("args"@) {
            lemma_arg(st, "args"@, args, None);
            let (st1, tuple) = arg_lowered(st, "args"@, args, None);
            lemma_formatted(st1, chunks, Some(tuple));
        } else {
            lemma_formatted(st, chunks, None);
        }
    }
}

proof fn lemma_transaction(st: State, body: Block)
    requires
        sound(st),
    ensures
        sound(transaction_lowered(st, body).0),
        runs(st, transaction_lowered(st, body).0),
        is_value(transaction_lowered(st, body).0, transaction_lowered(st, body).1),
    decreases body, 1nat, 0nat,
{
    broadcast use group_runs;

    lemma_symbols();
    lemma_push_scope(st);
    lemma_bracket(st.push_scope(), "coddl_begin_tx"@);
    let st1 = st.push_scope().bracket("coddl_begin_tx"@);
    lemma_block(st1, body);
    let (st2, v) = block_lowered(st1, body);
    lemma_bracket(st2, "coddl_commit_tx"@);
    let st3 = st2.bracket("coddl_commit_tx"@);
    lemma_retain_escaping(st3, v);
    lemma_release_scope(st3.retain_escaping(v));
    lemma_pop_scope(st3.retain_escaping(v).release_scope());
}

proof fn lemma_fields(st: State, fields: Seq<(String, Expr)>, n: nat)
    requires
        sound(st),
    ensures
        sound(fields_lowered(st, fields, n).0),
        runs(st, fields_lowered(st, fields, n).0),
        are_vars(fields_lowered(st, fields, n).0, fields_lowered(st, fields, n).1),
    decreases fields, 0nat, n,
{
    broadcast use group_runs;

    if n == 0 || n > fields.len() {
        lemma_runs_here(st);
    } else {
        assert(decreases_to!(fields => fields[n - 1]));
        assert(decreases_to!(fields[n - 1] => fields[n - 1].1));
        lemma_fields(st, fields, (n - 1) as nat);
        let (before, _, _) = fields_lowered(st, fields, (n - 1) as nat);
        lemma_lowered(before, fields[n - 1].1);
    }
}

proof fn lemma_tuple(st: State, fields: Seq<(String, Expr)>)
    requires
        sound(st),
    ensures
        sound(tuple_lowered(st, fields).0),
        runs(st, tuple_lowered(st, fields).0),
        is_value(tuple_lowered(st, fields).0, tuple_lowered(st, fields).1),
    decreases fields, 1nat, 0nat,
{
    broadcast use group_runs;

    lemma_fields(st, fields, fields.len());
    let (st1, vars, temps) = fields_lowered(st, fields, fields.len());
    lemma_tuple_made(st1, vars, temps);
}

proof fn lemma_tuples(st: State, tuples: Seq<Vec<(String, Expr)>>, n: nat)
    requires
        sound(st),
    ensures
        sound(tuples_lowered(st, tuples, n).0),
        runs(st, tuples_lowered(st, tuples, n).0),
        are_values(tuples_lowered(st, tuples, n).0, tuples_lowered(st, tuples, n).1),
    decreases tuples, 0nat, n,
{
    broadcast use group_runs;

    if n == 0 || n > tuples.len() {
        lemma_runs_here(st);
    } else {
        assert(decreases_to!(tuples => tuples[n - 1]));
        assert(decreases_to!(tuples[n - 1] => tuples[n - 1]@));
        lemma_tuples(st, tuples, (n - 1) as nat);
        let (before, _) = tuples_lowered(st, tuples, (n - 1) as nat);
        lemma_tuple(before, tuples[n - 1]@);
    }
}

proof fn lemma_relation(st: State, tuples: Seq<Vec<(String, Expr)>>)
    requires
        sound(st),
    ensures
        sound(relation_lowered(st, tuples).0),
        runs(st, relation_lowered(st, tuples).0),
        is_value(relation_lowered(st, tuples).0, relation_lowered(st, tuples).1),
    decreases tuples, 1nat, 0nat,
{
    broadcast use group_runs;

    if tuples.len() == 0 {
        lemma_empty_relation(st, Seq::empty());
    } else {
        lemma_tuples(st, tuples, tuples.len());
        let (st1, vs) = tuples_lowered(st, tuples, tuples.len());
        lemma_relation_made(st1, vs);
    }
}

proof fn lemma_elements(st: State, es: Seq<Expr>, n: nat)
    requires
        sound(st),
    ensures
        sound(elements_lowered(st, es, n).0),
        runs(st, elements_lowered(st, es, n).0),
        are_values(elements_lowered(st, es, n).0, elements_lowered(st, es, n).1),
    decreases es, 0nat, n,
{
    broadcast use group_runs;

    if n == 0 || n > es.len() {
        lemma_runs_here(st);
    } else {
        lemma_elements(st, es, (n - 1) as nat);
        let (before, _) = elements_lowered(st, es, (n - 1) as nat);
        lemma_lowered(before, es[n - 1]);
    }
}

proof fn lemma_sequence(st: State, span: Span, es: Seq<Expr>)
    requires
        sound(st),
    ensures
        sound(sequence_lowered(st, span, es).0),
        runs(st, sequence_lowered(st, span, es).0),
        is_value(sequence_lowered(st, span, es).0, sequence_lowered(st, span, es).1),
    decreases es, 1nat, 0nat,
{
    broadcast use group_runs;

    if es.len() == 0 {
        let d = error_view(span, "T0064"@, "empty sequence values are not yet executable"@);
        lemma_diagnose(st, d);
        lemma_define(st.diagnose(d), ProcTypeView::Unit);
    } else {
        lemma_elements(st, es, es.len());
        let (st1, vs) = elements_lowered(st, es, es.len());
        lemma_sequence_made(st1, vs);
    }
}

proof fn lemma_where(st: State, e: Expr)
    requires
        sound(st),
    ensures
        sound(where_lowered(st, e).0),
        runs(st, where_lowered(st, e).0),
        is_value(where_lowered(st, e).0, where_lowered(st, e).1),
    decreases e, 8nat, 0nat,
{
    broadcast use {group_runs, lemma_grows_on};

    lemma_unlowered(st);
    if let ExprKind::Binary { op, lhs, rhs } = e.kind {
        lemma_lowered(st, *lhs);
        let (st1, src) = lowered(st, *lhs);
        lemma_unlowered(st1);
        lemma_relation_id(st1, src);
        if let Some(id) = st1.relation_id(src) {
            if lays_out(st1.heading_at(id)) {
                let h = st1.heading_at(id);
                let (outer, name) = st1.where_name();
                lemma_where_name(st1);
                let entered = outer.enter();
                lemma_enter(outer);
                let (inner, record) = entered.take_param(ProcTypeView::Pointer);
                lemma_take_param(entered, ProcTypeView::Pointer);
                let first = inner.begin_body();
                lemma_begin_body(inner);
                let (inner1, _) = loads_first(first, record, h, h.len());
                lemma_loads_first(first, record, h, h.len());
                lemma_lowered(inner1, *rhs);
                let (inner2, accepted) = lowered(inner1, *rhs);
                lemma_release_deferred(inner2);
                let last = inner2.release_deferred();
                let t = TerminatorView::Return(Some(accepted));
                lemma_body_closes(first, last, t);
                let params = seq![("record_ptr"@, ProcTypeView::Pointer)];
                assert(grows(outer, last.finish_block(t))) by {
                    broadcast use {group_reaches, lemma_grows_on};

                }
                let closed = last.finish_block(t);
                assert(reaches(inner, closed)) by {
                    broadcast use group_reaches;

                }
                lemma_tells_through(entered, inner, closed);
                assert(closed.frame.insts.len() == 0) by {
                    reveal(State::finish_block);
                }
                lemma_leave(outer, closed, name, params, ProcTypeView::Boolean);
                let st2 = closed.leave(outer.frame, name, params, ProcTypeView::Boolean);
                let ty = ProcTypeView::Relation(id);
                let (st3, dst) = st2.define(ty);
                lemma_define(st2, ty);
                lemma_symbol_kept(st2, st3, name);
                let inst = InstView::Where { dst, src, predicate_linkage: name, heading_id: id };
                lemma_define_emit(st2, ty, inst);
                lemma_release_unbound(st3.emit(inst), src);
            }
        }
    }
}

proof fn lemma_combination(st: State, e: Expr)
    requires
        sound(st),
    ensures
        sound(combination_lowered(st, e).0),
        runs(st, combination_lowered(st, e).0),
        is_value(combination_lowered(st, e).0, combination_lowered(st, e).1),
    decreases e, 8nat, 0nat,
{
    broadcast use group_runs;

    lemma_unlowered(st);
    lemma_runs_here(st);
    if let ExprKind::Binary { op, lhs, rhs } = e.kind {
        let (st1, v) = match built(st, e) {
            Some(rel) => in_process(st, rel),
            None => (st, None),
        };
        if let Some(rel) = built(st, e) {
            lemma_in_process(st, rel);
        }
        if v is None {
            lemma_lowered(st1, *lhs);
            let (st2, l) = lowered(st1, *lhs);
            lemma_lowered(st2, *rhs);
            let (st3, r) = lowered(st2, *rhs);
            lemma_combined_values(st3, op, l, r);
        }
    }
}

proof fn lemma_values(st: State, pairs: Seq<(String, Expr)>, n: nat)
    requires
        sound(st),
    ensures
        sound(values_lowered(st, pairs, n).0),
        runs(st, values_lowered(st, pairs, n).0),
        are_bound(values_lowered(st, pairs, n).0, values_lowered(st, pairs, n).1),
        n <= pairs.len() ==> values_lowered(st, pairs, n).1.len() == n,
    decreases pairs, 0nat, n,
{
    broadcast use group_runs;

    if n == 0 || n > pairs.len() {
        lemma_runs_here(st);
    } else {
        assert(decreases_to!(pairs => pairs[n - 1]));
        assert(decreases_to!(pairs[n - 1] => pairs[n - 1].1));
        lemma_values(st, pairs, (n - 1) as nat);
        let (before, _) = values_lowered(st, pairs, (n - 1) as nat);
        lemma_lowered(before, pairs[n - 1].1);
    }
}

pub proof fn lemma_extended(
    st: State,
    src: ValueId,
    names: Seq<Name>,
    pairs: Seq<(String, Expr)>,
)
    requires
        sound(st),
        is_value(st, src),
    ensures
        sound(extended(st, src, names, pairs).0),
        runs(st, extended(st, src, names, pairs).0),
        is_value(extended(st, src, names, pairs).0, extended(st, src, names, pairs).1),
    decreases pairs, 1nat, 0nat,
{
    broadcast use {group_runs, lemma_grows_on};

    lemma_unlowered(st);
    lemma_relation_id(st, src);
    if let Some(id) = st.relation_id(src) {
        if lays_out(st.heading_at(id)) {
            let h = st.heading_at(id);
            let (outer, name) = st.extend_name();
            lemma_extend_name(st);
            let entered = outer.enter();
            lemma_enter(outer);
            let (inner, source) = entered.take_param(ProcTypeView::Pointer);
            lemma_take_param(entered, ProcTypeView::Pointer);
            let (inner1, target) = inner.take_param(ProcTypeView::Pointer);
            lemma_take_param(inner, ProcTypeView::Pointer);
            assert(inner1.stop is None ==> inner.stop is None) by {
                reveal(grows);
            }
            let first = inner1.begin_body();
            lemma_begin_body(inner1);
            assert(grows(outer, first));
            let (inner2, cells) = loads_first(first, source, h, h.len());
            lemma_loads_first(first, source, h, h.len());
            lemma_values(inner2, pairs, pairs.len());
            let (inner3, values) = values_lowered(inner2, pairs, pairs.len());
            lemma_unlowered(inner3);
            assert(grows(st, inner3));
            lemma_stopped(st, inner3.unlowered().0);
            if let Some(attrs) = widened(h, names, values, pairs.len()) {
                if lays_out(canonical(attrs)) {
                    let wide = canonical(attrs);
                    let (inner4, result) = inner3.intern(wide);
                    lemma_intern(inner3, wide);
                    let all = cells_with(cells, names, values, pairs.len());
                    lemma_cells_with(inner3, cells, names, values, pairs.len());
                    lemma_stores_first(inner4, target, wide, all, wide.len());
                    let inner5 = stores_first(inner4, target, wide, all, wide.len());
                    lemma_release_deferred(inner5);
                    let last = inner5.release_deferred();
                    let t = TerminatorView::Return(None);
                    lemma_body_closes(first, last, t);
                    let closed = last.finish_block(t);
                    assert(grows(last, closed) && reaches(inner1, closed)) by {
                        broadcast use group_reaches;

                    }
                    assert(inner1.stop is None ==> tells(entered, inner1)) by {
                        reveal(grows);
                        if inner1.stop is None {
                            lemma_tells_on(entered, inner, inner1);
                        }
                    }
                    lemma_tells_through(entered, inner1, closed);
                    assert(closed.frame.insts.len() == 0) by {
                        reveal(State::finish_block);
                    }
                    let params = seq![
                        ("src_record"@, ProcTypeView::Pointer),
                        ("dst_record"@, ProcTypeView::Pointer),
                    ];
                    lemma_leave(outer, closed, name, params, ProcTypeView::Unit);
                    let st2 = closed.leave(outer.frame, name, params, ProcTypeView::Unit);
                    assert(is_heading(st2, result)) by {
                        reveal(grows);
                    }
                    let ty = ProcTypeView::Relation(result);
                    let (st3, dst) = st2.define(ty);
                    lemma_define(st2, ty);
                    lemma_symbol_kept(st2, st3, name);
                    lemma_define_emit(
                        st2,
                        ty,
                        InstView::Extend {
                            dst,
                            src,
                            helper_linkage: name,
                            src_heading_id: id,
                            result_heading_id: result,
                        },
                    );
                }
            }
        }
    }
}

pub proof fn lemma_overwritten(
    st: State,
    src: ValueId,
    pairs: Seq<(String, Expr)>,
    removed: Seq<Name>,
)
    requires
        sound(st),
        is_value(st, src),
    ensures
        sound(overwritten(st, src, pairs, removed).0),
        runs(st, overwritten(st, src, pairs, removed).0),
        is_value(overwritten(st, src, pairs, removed).0, overwritten(st, src, pairs, removed).1),
    decreases pairs, 2nat, 0nat,
{
    broadcast use group_runs;

    lemma_unlowered(st);
    if let Some(id) = st.relation_id(src) {
        let h = st.heading_at(id);
        let names = names_in(pairs);
        lemma_extended(st, src, sub_names(h, names), pairs);
        let (st1, wide) = extended(st, src, sub_names(h, names), pairs);
        lemma_release_unbound(st1, src);
        let st2 = st1.release_unbound(src);
        lemma_project(st2, wide, sub_keep(h, names, removed), false);
        let (st3, narrow) = st2.project(wide, sub_keep(h, names, removed), false);
        lemma_release_unbound(st3, wide);
        let st4 = st3.release_unbound(wide);
        lemma_rename(st4, narrow, sub_renames(h, names));
        lemma_release_unbound(st4.rename(narrow, sub_renames(h, names)).0, narrow);
    }
}

proof fn lemma_replaced(st: State, src: ValueId, pairs: Seq<(String, Expr)>)
    requires
        sound(st),
        is_value(st, src),
    ensures
        sound(replaced(st, src, pairs).0),
        runs(st, replaced(st, src, pairs).0),
        is_value(replaced(st, src, pairs).0, replaced(st, src, pairs).1),
    decreases pairs, 3nat, 0nat,
{
    lemma_unlowered(st);
    if let Some(id) = st.relation_id(src) {
        lemma_overwritten(st, src, pairs, consumed_refs(pairs, st.heading_at(id)));
    }
}

proof fn lemma_arm(st: State, b: Block)
    requires
        sound(st),
    ensures
        sound(arm_lowered(st, b).0),
        runs(st, arm_lowered(st, b).0),
        is_value(arm_lowered(st, b).0, arm_lowered(st, b).1),
    decreases b, 1nat, 0nat,
{
    broadcast use group_runs;

    lemma_push_scope(st);
    lemma_block(st.push_scope(), b);
    let (st1, v) = block_lowered(st.push_scope(), b);
    lemma_retain_escaping(st1, v);
    lemma_release_scope(st1.retain_escaping(v));
    lemma_pop_scope(st1.retain_escaping(v).release_scope());
}

/// A type stays one.
pub proof fn lemma_type_reached(a: State, b: State, ty: ProcTypeView)
    requires
        reaches(a, b),
        is_type(a, ty),
    ensures
        is_type(b, ty),
    decreases ty,
{
    broadcast use group_reaches;

    match ty {
        ProcTypeView::Sequence(elem) => lemma_type_reached(a, b, *elem),
        _ => {},
    }
}

proof fn lemma_if(st: State, e: Expr)
    requires
        sound(st),
    ensures
        sound(if_lowered(st, e).0),
        runs(st, if_lowered(st, e).0),
        is_value(if_lowered(st, e).0, if_lowered(st, e).1),
    decreases e, 8nat, 0nat,
{
    broadcast use {group_runs, group_reaches};

    lemma_unlowered(st);
    if let ExprKind::If { condition, then_body, else_body } = e.kind {
        let names = add_each(Seq::empty(), branch_names(then_body, else_body));
        lemma_carried_first(st, names, names.len(), e.span);
        let (st1, carried) = carried_first(st, names, names.len(), e.span);
        lemma_lowered(st1, *condition);
        let (st2, cond) = lowered(st1, *condition);
        lemma_vars_later(st1, st2, carried);
        if else_body is None && carried.len() == 0 {
            let none = Multiset::<u32>::empty();
            let zero = Map::<u32, nat>::empty();
            lemma_leaves_none(st2);
            lemma_leaves_fresh(st2, st2, none, zero, 0);
            let (st3, then_id) = st2.fresh_block();
            lemma_leaves_fresh(st2, st3, none.insert(then_id.0), zero.insert(then_id.0, 0), 0);
            let (st4, merge_id) = st3.fresh_block();
            let counts = zero.insert(then_id.0, 0).insert(merge_id.0, 0);
            let open = none.insert(then_id.0).insert(merge_id.0);
            let branch = TerminatorView::CondBr {
                cond,
                then_block: then_id,
                else_block: merge_id,
            };
            lemma_leaves_lead_on(st2, st4, branch, open, counts);
            lemma_finish_block(st4, branch);
            let st5 = st4.finish_block(branch);
            lemma_no_params(st5);
            lemma_leaves_jump(st2, st4, st5, branch, then_id, Seq::empty(), open, counts);
            let st6 = st5.start_block(then_id, Seq::empty());
            lemma_arm(st6, then_body);
            let (st7, _) = arm_lowered(st6, then_body);
            let rest = open.remove(then_id.0);
            assert(rest =~= none.insert(merge_id.0));
            lemma_leaves_on(st2, st6, st7, rest, counts);
            let jump = TerminatorView::Br { target: merge_id, args: Seq::empty() };
            lemma_finish_block(st7, jump);
            let st8 = st7.finish_block(jump);
            lemma_define(st8, ProcTypeView::Unit);
            let (st9, _) = st8.define(ProcTypeView::Unit);
            lemma_no_params(st9);
            lemma_target_later(st8, st9, merge_id);
            if st9.stop is None {
                lemma_handed_on(st7.frame, st9.frame, Seq::empty(), 1);
            }
            lemma_leaves_jump(st2, st7, st9, jump, merge_id, Seq::empty(), rest, counts);
            let st10 = st9.start_block(merge_id, Seq::empty());
            assert(rest.remove(merge_id.0) =~= none);
            lemma_leaves_nothing(st2, st10, rest.remove(merge_id.0), counts);
        } else {
            lemma_branches(st2, e, carried, cond);
        }
    }
}

proof fn lemma_branches(st: State, e: Expr, carried: Vars, cond: ValueId)
    requires
        sound(st),
        are_vars(st, carried),
        are_plain(carried),
        is_value(st, cond),
    ensures
        sound(branches_lowered(st, e, carried, cond).0),
        runs(st, branches_lowered(st, e, carried, cond).0),
        is_value(
            branches_lowered(st, e, carried, cond).0,
            branches_lowered(st, e, carried, cond).1,
        ),
    decreases e, 7nat, 0nat,
{
    broadcast use group_reaches;

    lemma_unlowered(st);
    if let ExprKind::If { condition, then_body, else_body } = e.kind {
        let new_names = match else_body {
            Some(b) => introduced_names(st, assigned_in_block(then_body), assigned_in_block(b)),
            None => Seq::empty(),
        };
        let (st1, then_id) = st.fresh_block();
        let (st2, else_id) = st1.fresh_block();
        let (st3, merge_id) = st2.fresh_block();
        let branch = TerminatorView::CondBr { cond, then_block: then_id, else_block: else_id };
        let st4 = st3.finish_block(branch);
        let st5 = st4.start_block(then_id, Seq::empty());
        let (st6, then_val) = arm_lowered(st5, then_body);
        let ty = st6.type_of(then_val);
        let (st7, introduced) = introduced_first(st6, new_names, new_names.len(), e.span);
        let n = merge_count(ty, carried, introduced);
        let none = Multiset::<u32>::empty();
        let zero = Map::<u32, nat>::empty();
        lemma_leaves_none(st);
        lemma_leaves_fresh(st, st, none, zero, 0);
        let first = zero.insert(then_id.0, 0);
        lemma_leaves_fresh(st, st1, none.insert(then_id.0), first, 0);
        let second = first.insert(else_id.0, 0);
        lemma_leaves_fresh(st, st2, none.insert(then_id.0).insert(else_id.0), second, n);
        let counts = second.insert(merge_id.0, n);
        let open = none.insert(then_id.0).insert(else_id.0).insert(merge_id.0);
        lemma_leaves_lead_on(st, st3, branch, open, counts);
        lemma_finish_block(st3, branch);
        lemma_no_params(st4);
        lemma_leaves_jump(st, st3, st4, branch, then_id, Seq::empty(), open, counts);
        let two = open.remove(then_id.0);
        assert(two =~= none.insert(else_id.0).insert(merge_id.0));
        lemma_arm(st5, then_body);
        lemma_leaves_on(st, st5, st6, two, counts);
        lemma_relation_id(st6, then_val);
        lemma_introduced_first(st6, new_names, new_names.len(), e.span);
        lemma_leaves_on(st, st6, st7, two, counts);
        lemma_vars_later(st, st7, carried);
        lemma_current_values(st7, carried);
        lemma_prior_values(st7, introduced);
        lemma_both_values(st7, result_args(ty, then_val), current_values(st7, carried));
        lemma_both_values(
            st7,
            result_args(ty, then_val) + current_values(st7, carried),
            prior_values(introduced),
        );
        let out = TerminatorView::Br {
            target: merge_id,
            args: result_args(ty, then_val) + current_values(st7, carried) + prior_values(
                introduced,
            ),
        };
        lemma_finish_block(st7, out);
        let st8 = st7.finish_block(out);
        lemma_vars_later(st7, st8, carried);
        lemma_rebound(st8, carried);
        let st9 = rebound(st8, carried);
        lemma_no_params(st9);
        lemma_target_later(st4, st9, else_id);
        lemma_leaves_jump(st, st7, st9, out, else_id, Seq::empty(), two, counts);
        let st10 = st9.start_block(else_id, Seq::empty());
        let one = two.remove(else_id.0);
        assert(one =~= none.insert(merge_id.0));
        let (st11, else_val) = match else_body {
            Some(b) => arm_lowered(st10, b),
            None => st10.define(ProcTypeView::Unit),
        };
        match else_body {
            Some(b) => lemma_arm(st10, b),
            None => lemma_define(st10, ProcTypeView::Unit),
        }
        lemma_leaves_on(st, st10, st11, one, counts);
        lemma_vars_later(st7, st11, carried);
        lemma_vars_later(st7, st11, introduced);
        lemma_current_values(st11, carried);
        lemma_current_values(st11, introduced);
        lemma_both_values(st11, result_args(ty, else_val), current_values(st11, carried));
        lemma_both_values(
            st11,
            result_args(ty, else_val) + current_values(st11, carried),
            current_values(st11, introduced),
        );
        let out = TerminatorView::Br {
            target: merge_id,
            args: result_args(ty, else_val) + current_values(st11, carried) + current_values(
                st11,
                introduced,
            ),
        };
        lemma_finish_block(st11, out);
        let st12 = st11.finish_block(out);
        lemma_type_reached(st6, st12, ty);
        lemma_merged(st, st11, st12, out, merge_id, ty, carried, introduced, one, counts);
    }
}

pub proof fn lemma_block(st: State, b: Block)
    requires
        sound(st),
    ensures
        sound(block_lowered(st, b).0),
        runs(st, block_lowered(st, b).0),
        is_value(block_lowered(st, b).0, block_lowered(st, b).1),
    decreases b, 0nat, 0nat,
{
    broadcast use group_runs;

    lemma_stmts(st, b.statements@, b.statements@.len());
    let st1 = stmts_lowered(st, b.statements@, b.statements@.len());
    match b.tail {
        Some(e) => lemma_lowered(st1, *e),
        None => lemma_define(st1, ProcTypeView::Unit),
    }
}

proof fn lemma_stmts(st: State, stmts: Seq<Stmt>, n: nat)
    requires
        sound(st),
    ensures
        sound(stmts_lowered(st, stmts, n)),
        runs(st, stmts_lowered(st, stmts, n)),
    decreases stmts, 0nat, n,
{
    broadcast use group_runs;

    if n == 0 || n > stmts.len() {
        lemma_runs_here(st);
    } else {
        lemma_stmts(st, stmts, (n - 1) as nat);
        lemma_stmt(stmts_lowered(st, stmts, (n - 1) as nat), stmts[n - 1]);
    }
}

proof fn lemma_stmt(st: State, s: Stmt)
    requires
        sound(st),
    ensures
        sound(stmt_lowered(st, s)),
        runs(st, stmt_lowered(st, s)),
    decreases s, 5nat, 0nat,
{
    broadcast use group_runs;

    match s {
        Stmt::Let { name, annotation, value } => lemma_let(st, name@, annotation, value),
        Stmt::Var { name, annotation, value } => match value {
            Some(v) => lemma_binding(st, name@, annotation, v),
            None => lemma_add_pending(st, name@),
        },
        Stmt::Assign { target, value } => lemma_assign(st, target, value),
        Stmt::Truncate { operand } => lemma_truncate(st, operand),
        Stmt::Delete { operand } => lemma_delete(st, operand),
        Stmt::Insert { target, source } => lemma_insert(st, s),
        Stmt::Update { operand, pairs } => lemma_update(st, s),
        Stmt::Expr(e) => lemma_lowered(st, e),
        Stmt::For { span, name, over, body } => lemma_for(st, s),
        Stmt::While { span, condition, body } => lemma_while(st, s),
        Stmt::DoWhile { span, body, condition } => lemma_do_while(st, s),
        Stmt::Load { target, source, order } => {
            lemma_lowered(st, source);
            let (st1, rel) = lowered(st, source);
            lemma_loaded(st1, target@, rel, order@);
        },
    }
}

proof fn lemma_let(st: State, name: Name, annotation: Option<Type>, value: Expr)
    requires
        sound(st),
    ensures
        sound(let_lowered(st, name, annotation, value)),
        runs(st, let_lowered(st, name, annotation, value)),
    decreases value, 22nat, 0nat,
{
    broadcast use group_runs;

    match value.kind {
        ExprKind::Literal(Literal::Format(chunks)) => {
            lemma_bind_template(st, name, chunks_view(chunks@));
        },
        _ => {
            if st.env.pushes {
                match built(st, value) {
                    Some(rel) => {
                        lemma_offered(st, rel);
                        let (st1, answer) = offered(st, rel);
                        match answer {
                            Some(q) => lemma_bind_alias(st1, name, rel),
                            None => lemma_binding(st1, name, annotation, value),
                        }
                    },
                    None => lemma_binding(st, name, annotation, value),
                }
            } else {
                lemma_binding(st, name, annotation, value);
            }
        },
    }
}

proof fn lemma_binding(st: State, name: Name, annotation: Option<Type>, value: Expr)
    requires
        sound(st),
    ensures
        sound(binding_lowered(st, name, annotation, value)),
        runs(st, binding_lowered(st, name, annotation, value)),
    decreases value, 21nat, 0nat,
{
    broadcast use group_runs;

    let (st1, v) = match value.kind {
        ExprKind::RelationLit { tuples } => if tuples@.len() == 0 {
            st.empty_relation(annotated_heading(annotation))
        } else {
            lowered(st, value)
        },
        _ => lowered(st, value),
    };
    lemma_empty_relation(st, annotated_heading(annotation));
    lemma_lowered(st, value);
    let ty = st1.type_of(v);
    lemma_taken_over(st1, v, ty, value.kind is NameRef);
    lemma_bind(taken_over(st1, v, ty, value.kind is NameRef), name, v, ty);
}

proof fn lemma_assign(st: State, target: Expr, value: Expr)
    requires
        sound(st),
    ensures
        sound(assign_lowered(st, target, value)),
        runs(st, assign_lowered(st, target, value)),
    decreases value, 23nat, 0nat,
{
    broadcast use group_runs;

    lemma_runs_here(st);
    if let ExprKind::NameRef(name) = target.kind {
        if attr_ref(value) != Some(name@) {
            lemma_local(st, name@);
            match st.local(name@) {
                Some(old_binding) => {
                    lemma_lowered(st, value);
                    let (st1, v) = lowered(st, value);
                    let ty = st1.type_of(v);
                    let release = InstView::Release { src: old_binding.0 };
                    let st2 = if needs_release(st1, old_binding.0, old_binding.1) {
                        st1.emit(release)
                    } else {
                        st1
                    };
                    lemma_emit(st1, release);
                    lemma_taken_over(st2, v, ty, value.kind is NameRef);
                    lemma_rebind(taken_over(st2, v, ty, value.kind is NameRef), name@, v, ty);
                },
                None => {
                    if st.is_pending(name@) {
                        lemma_lowered(st, value);
                        let (st1, v) = lowered(st, value);
                        let ty = st1.type_of(v);
                        lemma_taken_over(st1, v, ty, value.kind is NameRef);
                        lemma_bind_pending(
                            taken_over(st1, v, ty, value.kind is NameRef),
                            name@,
                            v,
                            ty,
                        );
                    } else if st.public(name@) is Some {
                        lemma_public_assign(st, name@, target, value);
                    } else {
                        lemma_lowered(st, value);
                        let (st1, v) = lowered(st, value);
                        lemma_stored(st1, name@, v);
                    }
                },
            }
        }
    }
}

proof fn lemma_public_assign(st: State, name: Name, target: Expr, value: Expr)
    requires
        sound(st),
    ensures
        sound(public_assign_lowered(st, name, target, value)),
        runs(st, public_assign_lowered(st, name, target, value)),
    decreases value, 22nat, 0nat,
{
    broadcast use group_runs;

    lemma_write_allowed(st, name, target.span);
    let (st1, allowed) = write_allowed(st, name, target.span);
    if allowed {
        lemma_runs_here(st1);
        let (st2, done) = match (built(st1, target), built(st1, value)) {
            (Some(t), Some(r)) => assigned_by_statement(st1, t, r),
            _ => (st1, false),
        };
        match (built(st1, target), built(st1, value)) {
            (Some(t), Some(r)) => lemma_assigned_by_statement(st1, t, r),
            _ => {},
        }
        if !done {
            lemma_runs_here(st2);
            let (st3, done) = match union_source(name, value) {
                Some(source) => match built(st2, target) {
                    Some(t) => shipped(st2, t, source),
                    None => (st2, false),
                },
                None => (st2, false),
            };
            if let Some(source) = union_source(name, value) {
                if let Some(t) = built(st2, target) {
                    lemma_shipped(st2, t, source);
                }
            }
            if !done {
                if let Some(t) = built(st3, target) {
                    if let RelView::RelvarRef { table_name, .. } = t {
                        lemma_refilled(st3, name, t, table_name, value);
                    }
                }
            }
        }
    }
}

pub proof fn lemma_shipped(st: State, target: RelView, source: Expr)
    requires
        sound(st),
        may_write(st),
    ensures
        sound(shipped(st, target, source).0),
        runs(st, shipped(st, target, source).0),
    decreases source, 21nat, 0nat,
{
    broadcast use group_runs;

    lemma_ask(st, RequestView::InsertTemplate { target });
    let (st1, answer) = st.ask(RequestView::InsertTemplate { target });
    if let Some(q) = answer {
        lemma_intern(st1, q.result_heading);
        let (st2, heading_id) = st1.intern(q.result_heading);
        lemma_plan(st2, q, heading_id);
        let (st3, plan_id) = st2.plan(q, heading_id);
        lemma_lowered(st3, source);
        let (st4, src) = lowered(st3, source);
        lemma_rows_shipped(st4, plan_id, src);
    }
}

proof fn lemma_refilled(st: State, name: Name, target: RelView, table: Name, value: Expr)
    requires
        sound(st),
        may_write(st),
    ensures
        sound(refilled(st, name, target, table, value)),
        runs(st, refilled(st, name, target, table, value)),
    decreases value, 21nat, 0nat,
{
    broadcast use group_runs;

    let x = built(st, value);
    lemma_diagnose(st, error_view(value.span, "T0049"@, self_message(name)));
    if x matches Some(r) && r.references_table(table) {
    } else {
        lemma_runs_here(st);
        let (st1, done) = match x {
            Some(r) => replaced_by_query(st, target, r),
            None => (st, false),
        };
        if let Some(r) = x {
            lemma_replaced_by_query(st, target, r);
        }
        if !done {
            lemma_ask(st1, RequestView::InsertTemplate { target });
            let (st2, template) = st1.ask(RequestView::InsertTemplate { target });
            lemma_runs_here(st2);
            lemma_ask(st2, RequestView::Truncate { target });
            let (st3, truncate) = match template {
                Some(_) => st2.ask(RequestView::Truncate { target }),
                None => (st2, None),
            };
            lemma_runs_here(st3);
            match (template, truncate) {
                (Some(q), Some(t)) => {
                    lemma_dml(st3, t);
                    let st4 = st3.dml(t);
                    lemma_intern(st4, q.result_heading);
                    let (st5, heading_id) = st4.intern(q.result_heading);
                    lemma_plan(st5, q, heading_id);
                    let (st6, plan_id) = st5.plan(q, heading_id);
                    lemma_lowered(st6, value);
                    let (st7, src) = lowered(st6, value);
                    lemma_rows_shipped(st7, plan_id, src);
                    lemma_diagnose(
                        crate::lower::steps::rows_shipped(st7, plan_id, src).0,
                        error_view(value.span, "T0049"@, shape_message(name)),
                    );
                },
                _ => {
                    lemma_diagnose(st3, error_view(value.span, "T0049"@, shape_message(name)));
                },
            }
        }
    }
}

pub proof fn lemma_replaced_by_query(st: State, target: RelView, value: RelView)
    requires
        sound(st),
        may_write(st),
    ensures
        sound(replaced_by_query(st, target, value).0),
        runs(st, replaced_by_query(st, target, value).0),
{
    broadcast use group_runs;

    reveal(replaced_by_query);
    lemma_ask(st, RequestView::ReplaceInsert { target, value });
    let (st1, insert) = st.ask(RequestView::ReplaceInsert { target, value });
    if let Some(insert) = insert {
        lemma_ask(st1, RequestView::Truncate { target });
        let (st2, truncate) = st1.ask(RequestView::Truncate { target });
        if let Some(truncate) = truncate {
            lemma_dml(st2, truncate);
            lemma_dml(st2.dml(truncate), insert);
        }
    }
}

proof fn lemma_truncate(st: State, operand: Expr)
    requires
        sound(st),
    ensures
        sound(truncate_lowered(st, operand)),
        runs(st, truncate_lowered(st, operand)),
    decreases operand, 21nat, 0nat,
{
    broadcast use group_runs;

    lemma_runs_here(st);
    if let ExprKind::NameRef(name) = operand.kind {
        if st.public(name@) is Some {
            lemma_write_allowed(st, name@, operand.span);
            let (st1, allowed) = write_allowed(st, name@, operand.span);
            if allowed {
                if let Some(t) = built(st1, operand) {
                    lemma_assigned_by_statement(
                        st1,
                        t,
                        RelView::Minus { lhs: Box::new(t), rhs: Box::new(t) },
                    );
                }
            }
        } else {
            lemma_lowered(st, operand);
            let (st1, l) = lowered(st, operand);
            lemma_lowered(st1, operand);
            let (st2, r) = lowered(st1, operand);
            lemma_subtract(st2, l, r);
            let (st3, v) = st2.subtract(l, r);
            lemma_stored(st3, name@, v);
        }
    }
}

proof fn lemma_delete(st: State, operand: Expr)
    requires
        sound(st),
    ensures
        sound(delete_lowered(st, operand)),
        runs(st, delete_lowered(st, operand)),
    decreases operand, 21nat, 0nat,
{
    broadcast use group_runs;

    lemma_runs_here(st);
    if let ExprKind::Binary { op, lhs, rhs } = operand.kind {
        if let Some(name) = attr_ref(*lhs) {
            if st.public(name) is Some {
                lemma_write_allowed(st, name, operand.span);
                let (st1, allowed) = write_allowed(st, name, operand.span);
                let d = error_view(operand.span, "T0049"@, delete_message(name));
                lemma_diagnose(st1, d);
                match (built(st1, *lhs), built(st1, operand)) {
                    (Some(t), Some(r)) => if allowed {
                        let rest = RelView::Minus { lhs: Box::new(t), rhs: Box::new(r) };
                        lemma_assigned_by_statement(st1, t, rest);
                        lemma_diagnose(assigned_by_statement(st1, t, rest).0, d);
                    },
                    _ => {},
                }
            } else {
                lemma_lowered(st, *lhs);
                let (st1, l) = lowered(st, *lhs);
                lemma_lowered(st1, operand);
                let (st2, r) = lowered(st1, operand);
                lemma_subtract(st2, l, r);
                let (st3, v) = st2.subtract(l, r);
                lemma_stored(st3, name, v);
            }
        }
    }
}

proof fn lemma_insert(st: State, s: Stmt)
    requires
        sound(st),
    ensures
        sound(insert_lowered(st, s)),
        runs(st, insert_lowered(st, s)),
    decreases s, 4nat, 0nat,
{
    broadcast use group_runs;

    lemma_runs_here(st);
    if let Stmt::Insert { target, source } = s {
        if let Some(name) = attr_ref(target) {
            if st.public(name) is Some {
                lemma_write_allowed(st, name, target.span);
                let (st1, allowed) = write_allowed(st, name, target.span);
                if allowed {
                    if let Some(t) = built(st1, target) {
                        lemma_runs_here(st1);
                        match built(st1, source) {
                            Some(r) => {
                                let both = RelView::Or { lhs: Box::new(t), rhs: Box::new(r) };
                                lemma_assigned_by_statement(st1, t, both);
                                lemma_shipped(assigned_by_statement(st1, t, both).0, t, source);
                            },
                            None => lemma_shipped(st1, t, source),
                        }
                    }
                }
            } else {
                lemma_lowered(st, target);
                let (st1, l) = lowered(st, target);
                lemma_lowered(st1, source);
                let (st2, r) = lowered(st1, source);
                lemma_unite(st2, l, r);
                let (st3, v) = st2.unite(l, r);
                lemma_stored(st3, name, v);
            }
        }
    }
}

proof fn lemma_update(st: State, s: Stmt)
    requires
        sound(st),
    ensures
        sound(update_lowered(st, s)),
        runs(st, update_lowered(st, s)),
    decreases s, 4nat, 0nat,
{
    broadcast use group_runs;

    lemma_runs_here(st);
    if let Stmt::Update { operand, pairs } = s {
        if let Some((root, has_where)) = update_root(operand) {
            if let Some(name) = attr_ref(root) {
                if st.public(name) is Some {
                    lemma_public_updated(
                        st,
                        name,
                        root,
                        operand,
                        has_where,
                        pairs@,
                        names_in(pairs@),
                    );
                } else {
                    lemma_lowered(st, operand);
                    let (st1, matching) = lowered(st, operand);
                    lemma_overwritten(st1, matching, pairs@, names_in(pairs@));
                    let (st2, changed) = overwritten(st1, matching, pairs@, names_in(pairs@));
                    if has_where {
                        lemma_lowered(st2, root);
                        let (st3, all) = lowered(st2, root);
                        lemma_lowered(st3, operand);
                        let (st4, again) = lowered(st3, operand);
                        lemma_subtract(st4, all, again);
                        let (st5, unchanged) = st4.subtract(all, again);
                        lemma_unite(st5, unchanged, changed);
                        let (st6, v) = st5.unite(unchanged, changed);
                        lemma_stored(st6, name, v);
                    } else {
                        lemma_stored(st2, name, changed);
                    }
                }
            }
        }
    }
}

proof fn lemma_for(st: State, s: Stmt)
    requires
        sound(st),
    ensures
        sound(for_lowered(st, s)),
        runs(st, for_lowered(st, s)),
    decreases s, 4nat, 0nat,
{
    broadcast use group_runs;

    lemma_runs_here(st);
    if let Stmt::For { span, name, over, body } = s {
        match over {
            ForRange::Counted { low, high } => {
                lemma_lowered(st, low);
                let (st1, lo) = lowered(st, low);
                lemma_lowered(st1, high);
                let (st2, hi) = lowered(st1, high);
                lemma_counted_loop(st2, lo, hi, body, span, LoopVar::Counter(name@));
            },
            ForRange::Elements(e) => {
                lemma_push_scope(st);
                lemma_lowered(st.push_scope(), e);
                let (st1, seq) = lowered(st.push_scope(), e);
                let ty = st1.type_of(seq);
                lemma_relation_id(st1, seq);
                lemma_sequence_held(st1, seq, e.kind is NameRef);
                let st2 = sequence_held(st1, seq, e.kind is NameRef);
                lemma_sequence_bounds(st2, seq);
                let (st3, lo, hi) = sequence_bounds(st2, seq);
                let var = LoopVar::Element { seq, ty: element_type(ty), name: name@ };
                lemma_type_later(st1, st3, element_type(ty));
                lemma_counted_loop(st3, lo, hi, body, span, var);
                let st4 = counted_loop(st3, lo, hi, body, span, var);
                lemma_release_scope(st4);
                lemma_pop_scope(st4.release_scope());
            },
        }
    }
}

proof fn lemma_counted_loop(
    st: State,
    lo: ValueId,
    hi: ValueId,
    body: Block,
    span: Span,
    var: LoopVar,
)
    requires
        sound(st),
        is_value(st, lo),
        is_value(st, hi),
        is_loop_var(st, var),
    ensures
        sound(counted_loop(st, lo, hi, body, span, var)),
        runs(st, counted_loop(st, lo, hi, body, span, var)),
    decreases body, 2nat, 0nat,
{
    broadcast use {group_runs, group_reaches};

    let names = add_each(Seq::empty(), assigned_in_block(body));
    lemma_carried_first(st, names, names.len(), span);
    let (st1, carried) = carried_first(st, names, names.len(), span);
    let none = Multiset::<u32>::empty();
    let zero = Map::<u32, nat>::empty();
    lemma_leaves_none(st1);
    lemma_leaves_fresh(st1, st1, none, zero, 1 + carried.len());
    let (st2, header) = st1.fresh_block();
    let first = zero.insert(header.0, 1 + carried.len());
    lemma_leaves_fresh(st1, st2, none.insert(header.0), first, 0);
    let (st3, body_id) = st2.fresh_block();
    let second = first.insert(body_id.0, 0);
    lemma_leaves_fresh(st1, st3, none.insert(header.0).insert(body_id.0), second, 0);
    let (st4, exit) = st3.fresh_block();
    let counts = second.insert(exit.0, 0);
    let open = none.insert(header.0).insert(body_id.0).insert(exit.0);
    assert(open.remove(header.0) =~= none.insert(body_id.0).insert(exit.0));
    lemma_vars_later(st1, st4, carried);
    lemma_loop_opened(st1, st4, lo, hi, carried, header, body_id, exit, open, counts);
    let (st5, counter, params) = loop_opened(st4, lo, hi, carried, header, body_id, exit);
    let rest = open.remove(header.0).remove(body_id.0);
    assert(rest =~= none.insert(exit.0));
    lemma_push_scope(st5);
    let st6 = st5.push_scope();
    if let LoopVar::Element { seq, ty, .. } = var {
        lemma_type_reached(st, st6, ty);
    }
    lemma_loop_var_bound(st6, var, counter);
    let st7 = loop_var_bound(st6, var, counter);
    lemma_block(st7, body);
    let (st8, _) = block_lowered(st7, body);
    lemma_release_scope(st8);
    lemma_pop_scope(st8.release_scope());
    let st9 = st8.release_scope().pop_scope();
    lemma_leaves_on(st1, st5, st9, rest, counts);
    lemma_vars_later(st4, st9, carried);
    lemma_vars_later(st5, st9, params);
    lemma_target_later(st5, st9, exit);
    lemma_loop_closed(st1, st9, counter, carried, params, header, exit, rest, counts);
}

/// A counted loop's body goes on from where the loop was opened.
pub proof fn lemma_counted_parts(
    st: State,
    lo: ValueId,
    hi: ValueId,
    body: Block,
    span: Span,
    var: LoopVar,
)
    requires
        sound(st),
        is_value(st, lo),
        is_value(st, hi),
        is_loop_var(st, var),
    ensures
        sound(counted_loop(st, lo, hi, body, span, var)),
        ({
            let names = add_each(Seq::empty(), assigned_in_block(body));
            let (st1, carried) = carried_first(st, names, names.len(), span);
            let (st2, header) = st1.fresh_block();
            let (st3, body_id) = st2.fresh_block();
            let (st4, exit) = st3.fresh_block();
            let (st5, counter, params) = loop_opened(st4, lo, hi, carried, header, body_id, exit);
            let (st8, _) = block_lowered(loop_var_bound(st5.push_scope(), var, counter), body);
            let st9 = st8.release_scope().pop_scope();
            &&& sound(st5)
            &&& sound(st9)
            &&& runs(st5, st9)
        }),
{
    broadcast use {group_runs, group_reaches};

    let names = add_each(Seq::empty(), assigned_in_block(body));
    lemma_carried_first(st, names, names.len(), span);
    let (st1, carried) = carried_first(st, names, names.len(), span);
    let none = Multiset::<u32>::empty();
    let zero = Map::<u32, nat>::empty();
    lemma_leaves_none(st1);
    lemma_leaves_fresh(st1, st1, none, zero, 1 + carried.len());
    let (st2, header) = st1.fresh_block();
    let first = zero.insert(header.0, 1 + carried.len());
    lemma_leaves_fresh(st1, st2, none.insert(header.0), first, 0);
    let (st3, body_id) = st2.fresh_block();
    let second = first.insert(body_id.0, 0);
    lemma_leaves_fresh(st1, st3, none.insert(header.0).insert(body_id.0), second, 0);
    let (st4, exit) = st3.fresh_block();
    let counts = second.insert(exit.0, 0);
    let open = none.insert(header.0).insert(body_id.0).insert(exit.0);
    assert(open.remove(header.0) =~= none.insert(body_id.0).insert(exit.0));
    lemma_vars_later(st1, st4, carried);
    lemma_loop_opened(st1, st4, lo, hi, carried, header, body_id, exit, open, counts);
    let (st5, counter, params) = loop_opened(st4, lo, hi, carried, header, body_id, exit);
    let rest = open.remove(header.0).remove(body_id.0);
    assert(rest =~= none.insert(exit.0));
    lemma_push_scope(st5);
    let st6 = st5.push_scope();
    if let LoopVar::Element { seq, ty, .. } = var {
        lemma_type_reached(st, st6, ty);
    }
    lemma_loop_var_bound(st6, var, counter);
    let st7 = loop_var_bound(st6, var, counter);
    lemma_block(st7, body);
    let (st8, _) = block_lowered(st7, body);
    lemma_release_scope(st8);
    lemma_pop_scope(st8.release_scope());
    let st9 = st8.release_scope().pop_scope();
    lemma_leaves_on(st1, st5, st9, rest, counts);
    lemma_vars_later(st4, st9, carried);
    lemma_vars_later(st5, st9, params);
    lemma_target_later(st5, st9, exit);
    lemma_loop_closed(st1, st9, counter, carried, params, header, exit, rest, counts);
}

/// The new values of variables are those of block parameters.
proof fn lemma_fresh_handed(before: State, st: State, vars: Vars)
    requires
        sound(st),
        are_plain(vars),
        st.frame.types == before.frame.types,
    ensures
        ({
            let (out, params) = fresh_first(st, vars, vars.len());
            out.stop is None ==> handed_on(before.frame, out.frame, var_params(params))
        }),
{
    lemma_fresh_first(st, vars, vars.len());
    lemma_fresh_count(st, vars, vars.len());
    let (out, params) = fresh_first(st, vars, vars.len());
    if out.stop is None {
        reveal(reaches);
        let all = var_params(params);
        assert forall|i: int| 0 <= i < all.len() implies (#[trigger] all[i]).0.0
            == st.frame.types.len() + i by {
            assert(all[i] == params[i].1);
        }
        lemma_handed_on(before.frame, out.frame, all, 0);
    }
}

/// Block parameters for variables that just got new values.
proof fn lemma_fresh_params(st: State, out: State, params: Vars)
    requires
        out.stop is None ==> {
            &&& are_vars(out, params)
            &&& forall|i: int|
                0 <= i < params.len() ==> (#[trigger] params[i]).1.0.0 == st.frame.types.len() + i
                    && unassigned(out, params[i].1.0)
        },
    ensures
        are_fresh(out, var_params(params)),
{
    if out.stop is None {
        let all = var_params(params);
        let vs = param_values(all);
        assert forall|i: int| 0 <= i < all.len() implies unassigned(out, (#[trigger] all[i]).0)
            && all[i].0.0 < out.frame.types.len() by {
            assert(all[i] == params[i].1);
        }
        assert forall|i: int, j: int| 0 <= i < j < vs.len() implies vs[i] != vs[j] by {
            assert(vs[i] == params[i].1.0 && vs[j] == params[j].1.0);
        }
    }
}

proof fn lemma_while(st: State, s: Stmt)
    requires
        sound(st),
    ensures
        sound(while_lowered(st, s)),
        runs(st, while_lowered(st, s)),
    decreases s, 4nat, 0nat,
{
    broadcast use {group_runs, group_reaches};

    lemma_runs_here(st);
    if let Stmt::While { span, condition, body } = s {
        let names = add_each(Seq::empty(), assigned_in_block(body));
        lemma_carried_first(st, names, names.len(), span);
        let (st1, carried) = carried_first(st, names, names.len(), span);
        let none = Multiset::<u32>::empty();
        let zero = Map::<u32, nat>::empty();
        lemma_leaves_none(st1);
        lemma_leaves_fresh(st1, st1, none, zero, carried.len());
        let (st2, header) = st1.fresh_block();
        let first = zero.insert(header.0, carried.len());
        lemma_leaves_fresh(st1, st2, none.insert(header.0), first, 0);
        let (st3, body_id) = st2.fresh_block();
        let second = first.insert(body_id.0, 0);
        lemma_leaves_fresh(st1, st3, none.insert(header.0).insert(body_id.0), second, 0);
        let (st4, exit) = st3.fresh_block();
        let counts = second.insert(exit.0, 0);
        let open = none.insert(header.0).insert(body_id.0).insert(exit.0);
        lemma_vars_later(st1, st4, carried);
        lemma_prior_values(st4, carried);
        let into = TerminatorView::Br { target: header, args: prior_values(carried) };
        lemma_finish_block(st4, into);
        let st5 = st4.finish_block(into);
        lemma_fresh_first(st5, carried, carried.len());
        let (st6, params) = fresh_first(st5, carried, carried.len());
        lemma_fresh_params(st5, st6, params);
        lemma_target_later(st5, st6, header);
        lemma_fresh_handed(st4, st5, carried);
        lemma_leaves_jump(st1, st4, st6, into, header, var_params(params), open, counts);
        let st7 = st6.start_block(header, var_params(params));
        let two = open.remove(header.0);
        assert(two =~= none.insert(body_id.0).insert(exit.0));
        lemma_vars_later(st6, st7, params);
        lemma_rebound(st7, params);
        let st8 = rebound(st7, params);
        lemma_lowered(st8, condition);
        let (st9, cond) = lowered(st8, condition);
        lemma_leaves_on(st1, st7, st9, two, counts);
        let branch = TerminatorView::CondBr { cond, then_block: body_id, else_block: exit };
        lemma_leaves_lead_on(st1, st9, branch, two, counts);
        lemma_finish_block(st9, branch);
        let st10 = st9.finish_block(branch);
        lemma_no_params(st10);
        lemma_leaves_jump(st1, st9, st10, branch, body_id, Seq::empty(), two, counts);
        let st11 = st10.start_block(body_id, Seq::empty());
        let one = two.remove(body_id.0);
        assert(one =~= none.insert(exit.0));
        lemma_push_scope(st11);
        lemma_block(st11.push_scope(), body);
        let (st12, _) = block_lowered(st11.push_scope(), body);
        lemma_release_scope(st12);
        lemma_pop_scope(st12.release_scope());
        let st13 = st12.release_scope().pop_scope();
        lemma_leaves_on(st1, st11, st13, one, counts);
        lemma_vars_later(st4, st13, carried);
        lemma_current_values(st13, carried);
        let back = TerminatorView::Br { target: header, args: current_values(st13, carried) };
        lemma_finish_block(st13, back);
        let st14 = st13.finish_block(back);
        lemma_no_params(st14);
        lemma_target_later(st10, st14, exit);
        lemma_leaves_jump(st1, st13, st14, back, exit, Seq::empty(), one, counts);
        let st15 = st14.start_block(exit, Seq::empty());
        lemma_vars_later(st6, st15, params);
        lemma_rebound(st15, params);
        let last = rebound(st15, params);
        lemma_leaves_on(st1, st15, last, one.remove(exit.0), counts);
        assert(one.remove(exit.0) =~= none);
        lemma_leaves_nothing(st1, last, one.remove(exit.0), counts);
    }
}

proof fn lemma_do_while(st: State, s: Stmt)
    requires
        sound(st),
    ensures
        sound(do_while_lowered(st, s)),
        runs(st, do_while_lowered(st, s)),
    decreases s, 4nat, 0nat,
{
    broadcast use {group_runs, group_reaches};

    lemma_runs_here(st);
    if let Stmt::DoWhile { span, body, condition } = s {
        let names = add_each(Seq::empty(), assigned_in_block(body));
        lemma_carried_first(st, names, names.len(), span);
        let (st1, carried) = carried_first(st, names, names.len(), span);
        let none = Multiset::<u32>::empty();
        let zero = Map::<u32, nat>::empty();
        lemma_leaves_none(st1);
        lemma_leaves_fresh(st1, st1, none, zero, carried.len());
        let (st2, body_id) = st1.fresh_block();
        let first = zero.insert(body_id.0, carried.len());
        lemma_leaves_fresh(st1, st2, none.insert(body_id.0), first, 0);
        let (st3, latch) = st2.fresh_block();
        let second = first.insert(latch.0, 0);
        lemma_leaves_fresh(st1, st3, none.insert(body_id.0).insert(latch.0), second, 0);
        let (st4, exit) = st3.fresh_block();
        let counts = second.insert(exit.0, 0);
        let open = none.insert(body_id.0).insert(latch.0).insert(exit.0);
        lemma_vars_later(st1, st4, carried);
        lemma_prior_values(st4, carried);
        let into = TerminatorView::Br { target: body_id, args: prior_values(carried) };
        lemma_finish_block(st4, into);
        let st5 = st4.finish_block(into);
        lemma_fresh_first(st5, carried, carried.len());
        let (st6, params) = fresh_first(st5, carried, carried.len());
        lemma_fresh_params(st5, st6, params);
        lemma_target_later(st5, st6, body_id);
        lemma_fresh_handed(st4, st5, carried);
        lemma_leaves_jump(st1, st4, st6, into, body_id, var_params(params), open, counts);
        let st7 = st6.start_block(body_id, var_params(params));
        let two = open.remove(body_id.0);
        assert(two =~= none.insert(latch.0).insert(exit.0));
        lemma_vars_later(st6, st7, params);
        lemma_rebound(st7, params);
        let st8 = rebound(st7, params);
        lemma_push_scope(st8);
        lemma_block(st8.push_scope(), body);
        let (st9, _) = block_lowered(st8.push_scope(), body);
        lemma_release_scope(st9);
        lemma_pop_scope(st9.release_scope());
        let st10 = st9.release_scope().pop_scope();
        let now = current_values(st10, carried);
        lemma_vars_later(st4, st10, carried);
        lemma_current_values(st10, carried);
        lemma_lowered(st10, condition);
        let (st11, cond) = lowered(st10, condition);
        lemma_leaves_on(st1, st7, st11, two, counts);
        let branch = TerminatorView::CondBr { cond, then_block: latch, else_block: exit };
        lemma_leaves_lead_on(st1, st11, branch, two, counts);
        lemma_finish_block(st11, branch);
        let st12 = st11.finish_block(branch);
        lemma_no_params(st12);
        lemma_leaves_jump(st1, st11, st12, branch, latch, Seq::empty(), two, counts);
        let st13 = st12.start_block(latch, Seq::empty());
        let one = two.remove(latch.0);
        assert(one =~= none.insert(exit.0));
        lemma_values_later(st10, st13, now);
        let back = TerminatorView::Br { target: body_id, args: now };
        lemma_finish_block(st13, back);
        let st14 = st13.finish_block(back);
        lemma_no_params(st14);
        lemma_target_later(st12, st14, exit);
        lemma_leaves_jump(st1, st13, st14, back, exit, Seq::empty(), one, counts);
        let st15 = st14.start_block(exit, Seq::empty());
        lemma_values_later(st10, st15, now);
        let vars = with_values(carried, now);
        assert(are_vars(st15, vars)) by {
            if st15.stop is None {
                assert forall|i: int| 0 <= i < vars.len() implies (#[trigger] vars[i]).1.0.0
                    < st15.frame.types.len() by {
                    assert(now[i].0 < st15.frame.types.len());
                }
            }
        }
        lemma_rebound(st15, vars);
        let last = rebound(st15, vars);
        lemma_leaves_on(st1, st15, last, one.remove(exit.0), counts);
        assert(one.remove(exit.0) =~= none);
        lemma_leaves_nothing(st1, last, one.remove(exit.0), counts);
    }
}

/// A loop's body goes on from where its condition was tested.
pub proof fn lemma_while_parts(st: State, s: Stmt)
    requires
        sound(st),
    ensures
        s matches Stmt::While { span, condition, body } ==> {
            let names = add_each(Seq::empty(), assigned_in_block(body));
            let (st1, carried) = carried_first(st, names, names.len(), span);
            let (st2, header) = st1.fresh_block();
            let (st3, body_id) = st2.fresh_block();
            let (st4, exit) = st3.fresh_block();
            let st5 = st4.finish_block(
                TerminatorView::Br { target: header, args: prior_values(carried) },
            );
            let (st6, params) = fresh_first(st5, carried, carried.len());
            let st8 = rebound(st6.start_block(header, var_params(params)), params);
            let (st9, cond) = lowered(st8, condition);
            let st10 = st9.finish_block(
                TerminatorView::CondBr { cond, then_block: body_id, else_block: exit },
            );
            let st11 = st10.start_block(body_id, Seq::empty());
            let st13 = block_lowered(st11.push_scope(), body).0.release_scope().pop_scope();
            runs(st8, st9) && runs(st11, st13)
        },
{
    broadcast use {group_runs, group_reaches};

    lemma_runs_here(st);
    if let Stmt::While { span, condition, body } = s {
        let names = add_each(Seq::empty(), assigned_in_block(body));
        lemma_carried_first(st, names, names.len(), span);
        let (st1, carried) = carried_first(st, names, names.len(), span);
        let none = Multiset::<u32>::empty();
        let zero = Map::<u32, nat>::empty();
        lemma_leaves_none(st1);
        lemma_leaves_fresh(st1, st1, none, zero, carried.len());
        let (st2, header) = st1.fresh_block();
        let first = zero.insert(header.0, carried.len());
        lemma_leaves_fresh(st1, st2, none.insert(header.0), first, 0);
        let (st3, body_id) = st2.fresh_block();
        let second = first.insert(body_id.0, 0);
        lemma_leaves_fresh(st1, st3, none.insert(header.0).insert(body_id.0), second, 0);
        let (st4, exit) = st3.fresh_block();
        let counts = second.insert(exit.0, 0);
        let open = none.insert(header.0).insert(body_id.0).insert(exit.0);
        lemma_vars_later(st1, st4, carried);
        lemma_prior_values(st4, carried);
        let into = TerminatorView::Br { target: header, args: prior_values(carried) };
        lemma_finish_block(st4, into);
        let st5 = st4.finish_block(into);
        lemma_fresh_first(st5, carried, carried.len());
        let (st6, params) = fresh_first(st5, carried, carried.len());
        lemma_fresh_params(st5, st6, params);
        lemma_target_later(st5, st6, header);
        lemma_fresh_handed(st4, st5, carried);
        lemma_leaves_jump(st1, st4, st6, into, header, var_params(params), open, counts);
        let st7 = st6.start_block(header, var_params(params));
        let two = open.remove(header.0);
        assert(two =~= none.insert(body_id.0).insert(exit.0));
        lemma_vars_later(st6, st7, params);
        lemma_rebound(st7, params);
        let st8 = rebound(st7, params);
        lemma_lowered(st8, condition);
        let (st9, cond) = lowered(st8, condition);
        lemma_leaves_on(st1, st7, st9, two, counts);
        let branch = TerminatorView::CondBr { cond, then_block: body_id, else_block: exit };
        lemma_leaves_lead_on(st1, st9, branch, two, counts);
        lemma_finish_block(st9, branch);
        let st10 = st9.finish_block(branch);
        lemma_no_params(st10);
        lemma_leaves_jump(st1, st9, st10, branch, body_id, Seq::empty(), two, counts);
        let st11 = st10.start_block(body_id, Seq::empty());
        let one = two.remove(body_id.0);
        assert(one =~= none.insert(exit.0));
        lemma_push_scope(st11);
        lemma_block(st11.push_scope(), body);
        let (st12, _) = block_lowered(st11.push_scope(), body);
        lemma_release_scope(st12);
        lemma_pop_scope(st12.release_scope());
        let st13 = st12.release_scope().pop_scope();
        lemma_leaves_on(st1, st11, st13, one, counts);
        lemma_vars_later(st4, st13, carried);
        lemma_current_values(st13, carried);
        let back = TerminatorView::Br { target: header, args: current_values(st13, carried) };
        lemma_finish_block(st13, back);
        let st14 = st13.finish_block(back);
        lemma_no_params(st14);
        lemma_target_later(st10, st14, exit);
        lemma_leaves_jump(st1, st13, st14, back, exit, Seq::empty(), one, counts);
        let st15 = st14.start_block(exit, Seq::empty());
        lemma_vars_later(st6, st15, params);
        lemma_rebound(st15, params);
        let last = rebound(st15, params);
        lemma_leaves_on(st1, st15, last, one.remove(exit.0), counts);
        assert(one.remove(exit.0) =~= none);
        lemma_leaves_nothing(st1, last, one.remove(exit.0), counts);
    }
}

/// A loop's condition goes on from where its body ended.
pub proof fn lemma_do_while_parts(st: State, s: Stmt)
    requires
        sound(st),
    ensures
        s matches Stmt::DoWhile { span, body, condition } ==> {
            let names = add_each(Seq::empty(), assigned_in_block(body));
            let (st1, carried) = carried_first(st, names, names.len(), span);
            let (st2, body_id) = st1.fresh_block();
            let (st3, latch) = st2.fresh_block();
            let (st4, exit) = st3.fresh_block();
            let st5 = st4.finish_block(
                TerminatorView::Br { target: body_id, args: prior_values(carried) },
            );
            let (st6, params) = fresh_first(st5, carried, carried.len());
            let st8 = rebound(st6.start_block(body_id, var_params(params)), params);
            let st10 = block_lowered(st8.push_scope(), body).0.release_scope().pop_scope();
            let st11 = lowered(st10, condition).0;
            runs(st8, st10) && runs(st10, st11)
        },
{
    broadcast use {group_runs, group_reaches};

    lemma_runs_here(st);
    if let Stmt::DoWhile { span, body, condition } = s {
        let names = add_each(Seq::empty(), assigned_in_block(body));
        lemma_carried_first(st, names, names.len(), span);
        let (st1, carried) = carried_first(st, names, names.len(), span);
        let none = Multiset::<u32>::empty();
        let zero = Map::<u32, nat>::empty();
        lemma_leaves_none(st1);
        lemma_leaves_fresh(st1, st1, none, zero, carried.len());
        let (st2, body_id) = st1.fresh_block();
        let first = zero.insert(body_id.0, carried.len());
        lemma_leaves_fresh(st1, st2, none.insert(body_id.0), first, 0);
        let (st3, latch) = st2.fresh_block();
        let second = first.insert(latch.0, 0);
        lemma_leaves_fresh(st1, st3, none.insert(body_id.0).insert(latch.0), second, 0);
        let (st4, exit) = st3.fresh_block();
        let counts = second.insert(exit.0, 0);
        let open = none.insert(body_id.0).insert(latch.0).insert(exit.0);
        lemma_vars_later(st1, st4, carried);
        lemma_prior_values(st4, carried);
        let into = TerminatorView::Br { target: body_id, args: prior_values(carried) };
        lemma_finish_block(st4, into);
        let st5 = st4.finish_block(into);
        lemma_fresh_first(st5, carried, carried.len());
        let (st6, params) = fresh_first(st5, carried, carried.len());
        lemma_fresh_params(st5, st6, params);
        lemma_target_later(st5, st6, body_id);
        lemma_fresh_handed(st4, st5, carried);
        lemma_leaves_jump(st1, st4, st6, into, body_id, var_params(params), open, counts);
        let st7 = st6.start_block(body_id, var_params(params));
        let two = open.remove(body_id.0);
        assert(two =~= none.insert(latch.0).insert(exit.0));
        lemma_vars_later(st6, st7, params);
        lemma_rebound(st7, params);
        let st8 = rebound(st7, params);
        lemma_push_scope(st8);
        lemma_block(st8.push_scope(), body);
        let (st9, _) = block_lowered(st8.push_scope(), body);
        lemma_release_scope(st9);
        lemma_pop_scope(st9.release_scope());
        let st10 = st9.release_scope().pop_scope();
        let now = current_values(st10, carried);
        lemma_vars_later(st4, st10, carried);
        lemma_current_values(st10, carried);
        lemma_lowered(st10, condition);
        let (st11, cond) = lowered(st10, condition);
        lemma_leaves_on(st1, st7, st11, two, counts);
        let branch = TerminatorView::CondBr { cond, then_block: latch, else_block: exit };
        lemma_leaves_lead_on(st1, st11, branch, two, counts);
        lemma_finish_block(st11, branch);
        let st12 = st11.finish_block(branch);
        lemma_no_params(st12);
        lemma_leaves_jump(st1, st11, st12, branch, latch, Seq::empty(), two, counts);
        let st13 = st12.start_block(latch, Seq::empty());
        let one = two.remove(latch.0);
        assert(one =~= none.insert(exit.0));
        lemma_values_later(st10, st13, now);
        let back = TerminatorView::Br { target: body_id, args: now };
        lemma_finish_block(st13, back);
        let st14 = st13.finish_block(back);
        lemma_no_params(st14);
        lemma_target_later(st12, st14, exit);
        lemma_leaves_jump(st1, st13, st14, back, exit, Seq::empty(), one, counts);
        let st15 = st14.start_block(exit, Seq::empty());
        lemma_values_later(st10, st15, now);
        let vars = with_values(carried, now);
        assert(are_vars(st15, vars)) by {
            if st15.stop is None {
                assert forall|i: int| 0 <= i < vars.len() implies (#[trigger] vars[i]).1.0.0
                    < st15.frame.types.len() by {
                    assert(now[i].0 < st15.frame.types.len());
                }
            }
        }
        lemma_rebound(st15, vars);
        let last = rebound(st15, vars);
        lemma_leaves_on(st1, st15, last, one.remove(exit.0), counts);
        assert(one.remove(exit.0) =~= none);
        lemma_leaves_nothing(st1, last, one.remove(exit.0), counts);
    }
}

} // verus!
