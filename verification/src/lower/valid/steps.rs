//! The steps of lowering that look at no subexpression keep the state well
//! formed.

use crate::ast::{BinaryOp, Expr, ExprKind, Literal};
use crate::cut::{is_offered, pushed};
use crate::diag::{error_view, Span};
use crate::ir::{ConstView, HeadingId, InstView, ProcTypeView, RelvarView, ScalarOp, ValueId};
use crate::layout::record_bytes;
use crate::literals::{char_value, integer_value, string_value};
use crate::lower::kinds::{loaded_type, proc_of_type, type_of_proc};
use crate::lower::relational::{built, compose_names};
use crate::lower::state::{
    find_in, keys_of, last_public, name_index, Bound, ChunkView, RequestView, State, StopView,
    WritePolicy,
};
use crate::lower::steps::{
    assigned_by_statement, attempted, attrs_first, backend_message, called, capture_message,
    carried_first, carried_message, cells_with, combined_values, current_values, extracted,
    field_read, formatted, fresh_first, guarded, in_process, insert_field, introduced_first,
    introduced_message, is_arithmetic, joined_first, joined_texts, literal_lowered, loaded,
    loads_first, loop_var_bound, name_lowered, offered, operand_guarded, order_keys, pieces_first,
    printed, prior_values, public_updated, rebound, rebound_first, relation_made, release_cells,
    restructured, rows_shipped, scalar_applied, sequence_bounds, sequence_held, sequence_made,
    sorted_first, stored, stores_first, taken_over, temps_first, text_values, tuple_made,
    update_declined, update_message, updated_rel, view_message, write_allowed, LoopVar, Vars,
};
use crate::lower::valid::patterns::{
    lemma_close, lemma_coerce_to_text, lemma_concat, lemma_constant, lemma_dml, lemma_element,
    lemma_join, lemma_plain_type, lemma_project, lemma_query, lemma_read_slot, lemma_release_temp,
    lemma_release_temps, lemma_release_unbound, lemma_restructure, lemma_subtract,
    lemma_symbol_kept, lemma_symbols, lemma_text_const, lemma_to_text, lemma_type_anywhere,
    lemma_type_later, lemma_unite, lemma_unlowered,
};
use crate::lower::valid::primitives::{
    group_runs, is_type, lemma_ask, lemma_bind, lemma_bind_pending, lemma_declare, lemma_defer,
    lemma_define, lemma_define_emit, lemma_define_then, lemma_diagnose, lemma_drop_temps,
    lemma_emit, lemma_halted, lemma_intern, lemma_local, lemma_own, lemma_reaches_on, lemma_rebind,
    lemma_relation_id, lemma_runs_here, lemma_runs_reaches, lemma_set_temps, lemma_use_legacy,
    lemma_use_private, may_explain, reaches,
};
use crate::lower::valid::{
    are_values, bounds, callable, has_symbol, is_heading, is_supplied, is_value, may_write,
    named_in, runs, sound, type_in, unassigned,
};
use crate::rel_expr::RelView;
use crate::text::{before, Name};
use crate::types::{canonical, lookup_attr, HeadingView};
use vstd::multiset::Multiset;
use vstd::prelude::*;
use vstd::utf8::encode_utf8;

verus! {

/// Whether variables have values, unless lowering has stopped.
pub open spec fn are_vars(st: State, vars: Vars) -> bool {
    st.stop is Some || forall|i: int|
        0 <= i < vars.len() ==> (#[trigger] vars[i]).1.0.0 < st.frame.types.len()
}

/// Whether no variable is of a type with relations.
pub open spec fn are_plain(vars: Vars) -> bool {
    forall|i: int| 0 <= i < vars.len() ==> type_in((#[trigger] vars[i]).1.1, 0)
}

/// Whether an optional value exists, unless lowering has stopped.
pub open spec fn is_maybe(st: State, v: Option<ValueId>) -> bool {
    v matches Some(v) ==> is_value(st, v)
}

pub proof fn lemma_offered(st: State, rel: RelView)
    requires
        sound(st),
    ensures
        sound(offered(st, rel).0),
        runs(st, offered(st, rel).0),
        offered(st, rel).1 matches Some(q) ==> is_supplied(offered(st, rel).0, q)
            && may_explain(offered(st, rel).0, rel, q.text),
{
    reveal(offered);
    lemma_runs_here(st);
    lemma_ask(st, RequestView::Select(rel));
}

/// Lowering pushes what the cut pushes: an expression has a statement exactly when
/// the cut makes a plan of it from the answer, and it is that plan's. One that the
/// cut never pushes is not asked about.
pub proof fn law_lowering_follows_the_cut(st: State, rel: RelView)
    ensures
        ({
            let (asked, answer) = st.ask(RequestView::Select(rel));
            let (after, statement) = offered(st, rel);
            &&& is_offered(rel) ==> after == asked
            &&& !is_offered(rel) ==> after == st && pushed(rel, answer, None) is None
            &&& statement is Some <==> pushed(rel, answer, None) is Some
            &&& statement is Some ==> statement->0 == pushed(rel, answer, None)->0.query
        }),
{
    reveal(offered);
}

pub proof fn lemma_attempted(st: State, e: Expr)
    requires
        sound(st),
    ensures
        sound(attempted(st, e).0),
        runs(st, attempted(st, e).0),
        is_maybe(attempted(st, e).0, attempted(st, e).1),
{
    broadcast use group_runs;

    reveal(attempted);
    lemma_runs_here(st);
    if st.env.pushes {
        if let Some(rel) = built(st, e) {
            let (st1, answer) = offered(st, rel);
            lemma_offered(st, rel);
            if let Some(q) = answer {
                lemma_query(st1, q, rel);
            }
        }
    }
}

pub proof fn lemma_operand_guarded(st: State, operand: Expr)
    requires
        sound(st),
    ensures
        sound(operand_guarded(st, operand)),
        runs(st, operand_guarded(st, operand)),
{
    reveal(operand_guarded);
    reveal(State::halted);
    lemma_runs_here(st);
    if let Some(rel) = built(st, operand) {
        lemma_halted(
            st,
            StopView::FullRelvarPull(
                match crate::lower::relational::root_name(rel) {
                    Some(name) => name,
                    None => "?"@,
                },
            ),
        );
    }
}

pub proof fn lemma_guarded(st: State, e: Expr)
    requires
        sound(st),
    ensures
        sound(guarded(st, e)),
        runs(st, guarded(st, e)),
{
    broadcast use group_runs;

    reveal(guarded);
    lemma_runs_here(st);
    match e.kind {
        ExprKind::Binary { op, lhs, rhs } => {
            lemma_operand_guarded(st, *lhs);
            lemma_operand_guarded(operand_guarded(st, *lhs), *rhs);
        },
        ExprKind::Project { input, .. } => lemma_operand_guarded(st, *input),
        ExprKind::Replace { input, .. } => lemma_operand_guarded(st, *input),
        ExprKind::Rename { input, .. } => lemma_operand_guarded(st, *input),
        ExprKind::Wrap { input, .. } => lemma_operand_guarded(st, *input),
        ExprKind::Unwrap { input, .. } => lemma_operand_guarded(st, *input),
        ExprKind::Extend { input, .. } => lemma_operand_guarded(st, *input),
        ExprKind::Tclose { input, .. } => lemma_operand_guarded(st, *input),
        _ => {},
    }
}

pub proof fn lemma_literal(st: State, l: Literal)
    requires
        sound(st),
    ensures
        sound(literal_lowered(st, l).0),
        runs(st, literal_lowered(st, l).0),
        is_value(literal_lowered(st, l).0, literal_lowered(st, l).1),
{
    reveal(literal_lowered);
    lemma_unlowered(st);
    match l {
        Literal::Str(text) => {
            if let Some(s) = string_value(text@) {
                lemma_constant(st, ConstView::Text(encode_utf8(s)), ProcTypeView::Text);
            }
        },
        Literal::Integer(text) => {
            if let Some(n) = integer_value(text@) {
                lemma_constant(st, ConstView::Integer(n), ProcTypeView::Integer);
            }
        },
        Literal::Char(text) => {
            if let Some(c) = char_value(text@) {
                lemma_constant(st, ConstView::Character(c), ProcTypeView::Character);
            }
        },
        Literal::Format(_) => {},
        Literal::Other(_) => {},
    }
}

/// The headings of relvars are in the table.
pub proof fn lemma_relvars(st: State, name: Name)
    requires
        sound(st),
    ensures
        st.public(name) matches Some(p) ==> is_heading(st, p.0.heading_id),
        st.private(name) matches Some(id) ==> is_heading(st, id),
{
    reveal(State::public);
    reveal(State::private);
    reveal(sound);
    if st.stop is None {
        lemma_last_public(st.env.publics, name, st.headings.len());
        let i = name_index(keys_of(st.env.privates), name);
        if i < st.env.privates.len() {
            assert(st.env.privates[i as int].1.0 < st.headings.len());
        }
    }
}

proof fn lemma_last_public(
    publics: Seq<(RelvarView, WritePolicy)>,
    name: Name,
    headings: nat,
)
    requires
        forall|i: int|
            0 <= i < publics.len() ==> (#[trigger] publics[i]).0.heading_id.0 < headings,
    ensures
        last_public(publics, name) matches Some(p) ==> p.0.heading_id.0 < headings,
    decreases publics.len(),
{
    if publics.len() > 0 {
        let rest = publics.drop_last();
        assert(publics[publics.len() - 1].0.heading_id.0 < headings);
        assert forall|i: int| 0 <= i < rest.len() implies (#[trigger] rest[i]).0.heading_id.0
            < headings by {
            assert(rest[i] == publics[i]);
        }
        lemma_last_public(rest, name, headings);
    }
}

pub proof fn lemma_name(st: State, span: Span, name: Name)
    requires
        sound(st),
    ensures
        sound(name_lowered(st, span, name).0),
        runs(st, name_lowered(st, span, name).0),
        is_value(name_lowered(st, span, name).0, name_lowered(st, span, name).1),
{
    broadcast use group_runs;

    reveal(name_lowered);
    lemma_runs_here(st);
    lemma_local(st, name);
    lemma_relvars(st, name);
    match st.local(name) {
        Some(b) => {},
        None => match st.public(name) {
            Some(p) => {
                lemma_use_legacy(st, p.0.name);
                lemma_read_slot(st.use_legacy(p.0.name), p.0.name, p.0.heading_id);
            },
            None => match st.private(name) {
                Some(id) => {
                    lemma_use_private(st, name);
                    lemma_read_slot(st.use_private(name), name, id);
                },
                None => {
                    let d = error_view(span, "T0022"@, capture_message(name));
                    lemma_diagnose(st, d);
                    lemma_define(st.diagnose(d), ProcTypeView::Unit);
                    lemma_define(st, ProcTypeView::Unit);
                },
            },
        },
    }
}

pub proof fn lemma_scalar_applied(st: State, op: ScalarOp, lhs: ValueId, rhs: ValueId)
    requires
        sound(st),
        is_value(st, lhs),
        is_value(st, rhs),
    ensures
        sound(scalar_applied(st, op, lhs, rhs).0),
        runs(st, scalar_applied(st, op, lhs, rhs).0),
        is_value(scalar_applied(st, op, lhs, rhs).0, scalar_applied(st, op, lhs, rhs).1),
{
    broadcast use group_runs;

    reveal(scalar_applied);
    if op == ScalarOp::Concat {
        let (st1, l) = st.coerce_to_text(lhs);
        lemma_coerce_to_text(st, lhs);
        let (st2, r) = st1.coerce_to_text(rhs);
        lemma_coerce_to_text(st1, rhs);
        lemma_concat(st2, l, r);
    } else {
        let (operand_type, result) = if is_arithmetic(op) {
            (ProcTypeView::Integer, ProcTypeView::Integer)
        } else {
            (st.type_of(lhs), ProcTypeView::Boolean)
        };
        let (st1, dst) = st.define(result);
        lemma_define(st, result);
        let inst = InstView::ScalarOp { dst, op, operand_type, lhs, rhs };
        lemma_define_emit(st, result, inst);
        let st2 = st1.emit(inst);
        lemma_release_temp(st2, lhs);
        lemma_release_temp(st2.release_temp(lhs), rhs);
    }
}

pub proof fn lemma_restructured(st: State, src: Option<ValueId>, rel: RelView)
    requires
        sound(st),
        is_maybe(st, src),
    ensures
        sound(restructured(st, src, rel).0),
        runs(st, restructured(st, src, rel).0),
        is_maybe(restructured(st, src, rel).0, restructured(st, src, rel).1),
{
    reveal(restructured);
    lemma_runs_here(st);
    if let Some(src) = src {
        lemma_restructure(st, src, rel.heading());
    }
}

pub proof fn lemma_in_process(st: State, rel: RelView)
    requires
        sound(st),
    ensures
        sound(in_process(st, rel).0),
        runs(st, in_process(st, rel).0),
        is_maybe(in_process(st, rel).0, in_process(st, rel).1),
    decreases rel,
{
    broadcast use group_runs;

    reveal_with_fuel(in_process, 1);
    lemma_runs_here(st);
    match rel {
        RelView::MaterializedRelvar { name, .. } => {
            lemma_relvars(st, name);
            if let Some(id) = st.private(name) {
                lemma_use_private(st, name);
                lemma_read_slot(st.use_private(name), name, id);
            }
        },
        RelView::And { lhs, rhs } => {
            lemma_in_process(st, *lhs);
            let (st1, l) = in_process(st, *lhs);
            if let Some(l) = l {
                lemma_in_process(st1, *rhs);
                let (st2, r) = in_process(st1, *rhs);
                if let Some(r) = r {
                    lemma_join(st2, l, r);
                }
            }
        },
        RelView::Or { lhs, rhs } => {
            lemma_in_process(st, *lhs);
            let (st1, l) = in_process(st, *lhs);
            if let Some(l) = l {
                lemma_in_process(st1, *rhs);
                let (st2, r) = in_process(st1, *rhs);
                if let Some(r) = r {
                    lemma_unite(st2, l, r);
                }
            }
        },
        RelView::Minus { lhs, rhs } => {
            lemma_in_process(st, *lhs);
            let (st1, l) = in_process(st, *lhs);
            if let Some(l) = l {
                lemma_in_process(st1, *rhs);
                let (st2, r) = in_process(st1, *rhs);
                if let Some(r) = r {
                    lemma_subtract(st2, l, r);
                }
            }
        },
        RelView::Project { input, keep } => {
            lemma_in_process(st, *input);
            let (st1, src) = in_process(st, *input);
            if let Some(src) = src {
                lemma_project(st1, src, keep, false);
            }
        },
        RelView::TClose { input } => {
            lemma_in_process(st, *input);
            let (st1, src) = in_process(st, *input);
            if let Some(src) = src {
                lemma_close(st1, src);
            }
        },
        RelView::Wrap { input, .. } => {
            lemma_in_process(st, *input);
            let (st1, src) = in_process(st, *input);
            lemma_restructured(st1, src, rel);
        },
        RelView::Unwrap { input, .. } => {
            lemma_in_process(st, *input);
            let (st1, src) = in_process(st, *input);
            lemma_restructured(st1, src, rel);
        },
        _ => {},
    }
}

pub proof fn lemma_combined_values(st: State, op: BinaryOp, lhs: ValueId, rhs: ValueId)
    requires
        sound(st),
        is_value(st, lhs),
        is_value(st, rhs),
    ensures
        sound(combined_values(st, op, lhs, rhs).0),
        runs(st, combined_values(st, op, lhs, rhs).0),
        is_value(combined_values(st, op, lhs, rhs).0, combined_values(st, op, lhs, rhs).1),
{
    broadcast use group_runs;

    reveal(combined_values);
    if op == BinaryOp::Union {
        lemma_unite(st, lhs, rhs);
    } else if op == BinaryOp::Minus {
        lemma_subtract(st, lhs, rhs);
    } else {
        let (st1, joined) = st.join(lhs, rhs);
        lemma_join(st, lhs, rhs);
        lemma_unlowered(st1);
        if op == BinaryOp::Compose {
            match (st1.relation_id(lhs), st1.relation_id(rhs)) {
                (Some(l), Some(r)) => {
                    lemma_project(
                        st1,
                        joined,
                        compose_names(st1.heading_at(l), st1.heading_at(r)),
                        false,
                    );
                },
                _ => {},
            }
        }
    }
}

pub proof fn lemma_field_read(st: State, src: ValueId, field: Name)
    requires
        sound(st),
        is_value(st, src),
    ensures
        sound(field_read(st, src, field).0),
        runs(st, field_read(st, src, field).0),
        is_value(field_read(st, src, field).0, field_read(st, src, field).1),
{
    broadcast use group_runs;

    reveal(field_read);
    lemma_unlowered(st);
    if let ProcTypeView::Tuple(h) = st.type_of(src) {
        if let Some(t) = lookup_attr(h, field) {
            lemma_plain_type(t, st.headings.len());
            if let Some(ty) = proc_of_type(t) {
                let (_, dst) = st.define(ty);
                lemma_define(st, ty);
                lemma_define_emit(
                    st,
                    ty,
                    InstView::TupleField { dst, src, field_name: field, field_type: ty },
                );
            }
        }
    }
}

pub proof fn lemma_extracted(st: State, src: ValueId)
    requires
        sound(st),
        is_value(st, src),
    ensures
        sound(extracted(st, src).0),
        runs(st, extracted(st, src).0),
        is_value(extracted(st, src).0, extracted(st, src).1),
{
    broadcast use group_runs;

    reveal(extracted);
    lemma_unlowered(st);
    lemma_relation_id(st, src);
    if let Some(id) = st.relation_id(src) {
        let ty = ProcTypeView::Tuple(st.heading_at(id));
        let (st1, dst) = st.define(ty);
        lemma_define(st, ty);
        let inst = InstView::Extract { dst, src, heading_id: id };
        lemma_define_emit(st, ty, inst);
        lemma_defer(st1.emit(inst), src);
    }
}

pub proof fn lemma_printed(st: State, rel: ValueId)
    requires
        sound(st),
        is_value(st, rel),
    ensures
        sound(printed(st, rel).0),
        runs(st, printed(st, rel).0),
        is_value(printed(st, rel).0, printed(st, rel).1),
{
    broadcast use group_runs;

    reveal(printed);
    lemma_unlowered(st);
    lemma_relation_id(st, rel);
    if let Some(id) = st.relation_id(rel) {
        let inst = InstView::WriteRelation { rel, heading_id: id };
        lemma_emit(st, inst);
        lemma_define(st.emit(inst), ProcTypeView::Unit);
    }
}

pub proof fn lemma_called(
    st: State,
    callee: Name,
    args: Seq<ValueId>,
    return_type: ProcTypeView,
    borrows: bool,
)
    requires
        sound(st),
        are_values(st, args),
        is_type(st, return_type),
        st.stop is Some || callable(bounds(st), callee),
    ensures
        sound(called(st, callee, args, return_type, borrows).0),
        runs(st, called(st, callee, args, return_type, borrows).0),
        is_value(
            called(st, callee, args, return_type, borrows).0,
            called(st, callee, args, return_type, borrows).1,
        ),
{
    broadcast use group_runs;

    reveal(called);
    if return_type is Unit {
        let texts = text_values(st, args);
        let inst = InstView::Call { dst: None, callee, args, return_type };
        lemma_emit(st, inst);
        let st1 = st.emit(inst);
        lemma_release_temps(st1, texts);
        let st2 = if borrows {
            st1.release_temps(texts)
        } else {
            st1
        };
        lemma_define(st2, ProcTypeView::Unit);
    } else {
        let (st1, dst) = st.define(return_type);
        lemma_define(st, return_type);
        let texts = text_values(st1, args);
        let inst = InstView::Call { dst: Some(dst), callee, args, return_type };
        if st1.stop is None && has_symbol(st.functions, callee) {
            lemma_symbol_kept(st, st1, callee);
        }
        lemma_define_emit(st, return_type, inst);
        let st2 = st1.emit(inst);
        lemma_own(st2, dst);
        let st3 = if return_type is Text {
            st2.own(dst)
        } else {
            st2
        };
        lemma_release_temps(st3, texts);
    }
}

pub proof fn lemma_pieces_first(
    st: State,
    chunks: Seq<ChunkView>,
    n: nat,
    args: Option<ValueId>,
)
    requires
        sound(st),
        is_maybe(st, args),
    ensures
        sound(pieces_first(st, chunks, n, args).0),
        runs(st, pieces_first(st, chunks, n, args).0),
        are_values(pieces_first(st, chunks, n, args).0, pieces_first(st, chunks, n, args).1),
    decreases n,
{
    broadcast use group_runs;

    if n == 0 {
        lemma_runs_here(st);
    } else {
        lemma_pieces_first(st, chunks, (n - 1) as nat, args);
        let (before, _) = pieces_first(st, chunks, (n - 1) as nat, args);
        match chunks[n - 1] {
            ChunkView::Literal(bytes) => {
                lemma_text_const(before, bytes);
            },
            ChunkView::Placeholder(name) => match args {
                Some(tuple) => {
                    let (mid, field) = field_read(before, tuple, name);
                    lemma_field_read(before, tuple, name);
                    lemma_to_text(mid, field);
                },
                None => {
                    lemma_halted(before, StopView::NotLowered);
                },
            },
        }
    }
}

proof fn lemma_joined_first(st: State, pieces: Seq<ValueId>, n: nat)
    requires
        sound(st),
        are_values(st, pieces),
        0 < n <= pieces.len(),
    ensures
        sound(joined_first(st, pieces, n).0),
        runs(st, joined_first(st, pieces, n).0),
        is_value(joined_first(st, pieces, n).0, joined_first(st, pieces, n).1),
    decreases n,
{
    broadcast use group_runs;

    if n <= 1 {
        lemma_runs_here(st);
        assert(st.stop is Some || pieces[0].0 < st.frame.types.len());
    } else {
        lemma_joined_first(st, pieces, (n - 1) as nat);
        let (before, acc) = joined_first(st, pieces, (n - 1) as nat);
        assert(st.stop is Some || pieces[n - 1].0 < st.frame.types.len());
        lemma_concat(before, acc, pieces[n - 1]);
    }
}

pub proof fn lemma_formatted(st: State, chunks: Seq<ChunkView>, args: Option<ValueId>)
    requires
        sound(st),
        is_maybe(st, args),
    ensures
        sound(formatted(st, chunks, args).0),
        runs(st, formatted(st, chunks, args).0),
        is_value(formatted(st, chunks, args).0, formatted(st, chunks, args).1),
{
    broadcast use group_runs;

    reveal(formatted);
    reveal(joined_texts);
    reveal(release_cells);
    let (st1, pieces) = pieces_first(st, chunks, chunks.len(), args);
    lemma_pieces_first(st, chunks, chunks.len(), args);
    if pieces.len() == 0 {
        lemma_text_const(st1, Seq::empty());
    } else {
        lemma_joined_first(st1, pieces, pieces.len());
    }
    let (st2, _) = joined_texts(st1, pieces);
    if let Some(tuple) = args {
        lemma_drop_temps(st2, tuple);
        lemma_release_temps(st2.drop_temps(tuple), st2.temps(tuple));
    }
}

proof fn lemma_insert_field(s: Seq<(Name, ValueId)>, f: (Name, ValueId), values: nat)
    requires
        named_in(s, values),
        f.1.0 < values,
    ensures
        named_in(insert_field(s, f), values),
    decreases s.len(),
{
    if s.len() > 0 && before(f.0, s.last().0) {
        assert(s[s.len() - 1].1.0 < values);
        lemma_insert_field(s.drop_last(), f, values);
    }
}

proof fn lemma_sorted_first(fields: Vars, n: nat, values: nat)
    requires
        n <= fields.len(),
        forall|i: int| 0 <= i < fields.len() ==> (#[trigger] fields[i]).1.0.0 < values,
    ensures
        named_in(sorted_first(fields, n), values),
    decreases n,
{
    if n > 0 {
        lemma_sorted_first(fields, (n - 1) as nat, values);
        assert(fields[n - 1].1.0.0 < values);
        lemma_insert_field(
            sorted_first(fields, (n - 1) as nat),
            (fields[n - 1].0, fields[n - 1].1.0),
            values,
        );
    }
}

pub proof fn lemma_tuple_made(st: State, fields: Vars, temps: Seq<ValueId>)
    requires
        sound(st),
        are_vars(st, fields),
    ensures
        sound(tuple_made(st, fields, temps).0),
        runs(st, tuple_made(st, fields, temps).0),
        is_value(tuple_made(st, fields, temps).0, tuple_made(st, fields, temps).1),
{
    broadcast use group_runs;

    reveal(tuple_made);
    lemma_unlowered(st);
    if let Some(attrs) = attrs_first(fields, fields.len()) {
        let heading = canonical(attrs);
        let ty = ProcTypeView::Tuple(heading);
        let (st1, dst) = st.define(ty);
        lemma_define(st, ty);
        if st1.stop is None {
            assert(are_vars(st1, fields));
            lemma_sorted_first(fields, fields.len(), st1.frame.types.len());
        }
        let inst = InstView::TupleLit { dst, fields: sorted_first(fields, fields.len()), heading };
        lemma_define_emit(st, ty, inst);
        lemma_set_temps(st1.emit(inst), dst, temps);
    }
}

proof fn lemma_temps_first(st: State, tuples: Seq<ValueId>, n: nat)
    requires
        sound(st),
    ensures
        sound(temps_first(st, tuples, n).0),
        runs(st, temps_first(st, tuples, n).0),
        forall|w: ValueId|
            unassigned(st, w) ==> #[trigger] unassigned(temps_first(st, tuples, n).0, w),
    decreases n,
{
    broadcast use group_runs;

    if n == 0 {
        lemma_runs_here(st);
    } else {
        lemma_temps_first(st, tuples, (n - 1) as nat);
        lemma_drop_temps(temps_first(st, tuples, (n - 1) as nat).0, tuples[n - 1]);
    }
}

pub proof fn lemma_relation_made(st: State, tuples: Seq<ValueId>)
    requires
        sound(st),
        are_values(st, tuples),
    ensures
        sound(relation_made(st, tuples).0),
        runs(st, relation_made(st, tuples).0),
        is_value(relation_made(st, tuples).0, relation_made(st, tuples).1),
{
    broadcast use group_runs;

    reveal(relation_made);
    lemma_unlowered(st);
    if let ProcTypeView::Tuple(h) = st.type_of(tuples[0]) {
        let (st1, heading_id) = st.intern(h);
        lemma_intern(st, h);
        let ty = ProcTypeView::Relation(heading_id);
        let (st2, dst) = st1.define(ty);
        lemma_define(st1, ty);
        let (st3, temps) = temps_first(st2, tuples, tuples.len());
        lemma_temps_first(st2, tuples, tuples.len());
        assert(unassigned(st3, dst));
        let inst = InstView::RelationLit { dst, tuples, heading_id };
        lemma_emit(st3, inst);
        lemma_define_then(st1, ty, st3.emit(inst));
        lemma_release_temps(st3.emit(inst), temps);
    }
}

pub proof fn lemma_sequence_made(st: State, elements: Seq<ValueId>)
    requires
        sound(st),
        are_values(st, elements),
    ensures
        sound(sequence_made(st, elements).0),
        runs(st, sequence_made(st, elements).0),
        is_value(sequence_made(st, elements).0, sequence_made(st, elements).1),
{
    broadcast use group_runs;

    reveal(sequence_made);
    lemma_unlowered(st);
    let elem = st.type_of(elements[0]);
    lemma_relation_id(st, elements[0]);
    if let Some(t) = type_of_proc(elem) {
        let h = canonical(seq![("value"@, t)]);
        let (st1, heading_id) = st.intern(h);
        lemma_intern(st, h);
        let ty = ProcTypeView::Sequence(Box::new(elem));
        lemma_type_later(st, st1, elem);
        let (st2, dst) = st1.define(ty);
        lemma_define(st1, ty);
        let inst = InstView::SequenceLit { dst, elements, heading_id };
        lemma_define_emit(st1, ty, inst);
        lemma_release_temps(st2.emit(inst), elements);
    }
}

/// Whether bound values exist, unless lowering has stopped.
pub open spec fn are_bound(st: State, vs: Seq<Bound>) -> bool {
    st.stop is Some || forall|i: int|
        0 <= i < vs.len() ==> (#[trigger] vs[i]).0.0 < st.frame.types.len()
}

pub proof fn lemma_loads_first(st: State, record: ValueId, h: HeadingView, n: nat)
    requires
        sound(st),
        is_value(st, record),
    ensures
        sound(loads_first(st, record, h, n).0),
        runs(st, loads_first(st, record, h, n).0),
        are_vars(loads_first(st, record, h, n).0, loads_first(st, record, h, n).1),
    decreases n,
{
    broadcast use group_runs;

    if n == 0 {
        lemma_runs_here(st);
    } else {
        lemma_loads_first(st, record, h, (n - 1) as nat);
        let (before, _) = loads_first(st, record, h, (n - 1) as nat);
        lemma_halted(before, StopView::NotLowered);
        if let Some(ty) = loaded_type(h[n - 1].1) {
            let (mid, dst) = before.define(ty);
            lemma_define(before, ty);
            let inst = InstView::AttrLoad {
                dst,
                src: record,
                offset: record_bytes(h.take(n - 1))->0 as u32,
                attr_type: ty,
            };
            lemma_define_emit(before, ty, inst);
            let loaded = mid.emit(inst);
            lemma_bind(loaded, h[n - 1].0, dst, ty);
        }
    }
}

pub proof fn lemma_stores_first(
    st: State,
    record: ValueId,
    h: HeadingView,
    cells: Vars,
    n: nat,
)
    requires
        sound(st),
        is_value(st, record),
        are_vars(st, cells),
    ensures
        sound(stores_first(st, record, h, cells, n)),
        runs(st, stores_first(st, record, h, cells, n)),
    decreases n,
{
    broadcast use group_runs;

    if n == 0 {
        lemma_runs_here(st);
    } else {
        lemma_stores_first(st, record, h, cells, (n - 1) as nat);
        let before = stores_first(st, record, h, cells, (n - 1) as nat);
        lemma_halted(before, StopView::NotLowered);
        if let Some(b) = find_in(cells, h[n - 1].0) {
            let i = name_index(keys_of(cells), h[n - 1].0);
            assert(st.stop is Some || cells[i as int].1.0.0 < st.frame.types.len());
            let inst = InstView::AttrStore {
                record,
                offset: record_bytes(h.take(n - 1))->0 as u32,
                value: b.0,
                attr_type: b.1,
            };
            lemma_emit(before, inst);
            lemma_release_temp(before.emit(inst), b.0);
        }
    }
}

pub proof fn lemma_cells_with(
    st: State,
    cells: Vars,
    names: Seq<Name>,
    values: Seq<Bound>,
    n: nat,
)
    requires
        are_vars(st, cells),
        are_bound(st, values),
        n <= values.len(),
    ensures
        are_vars(st, cells_with(cells, names, values, n)),
    decreases n,
{
    if n > 0 {
        lemma_cells_with(st, cells, names, values, (n - 1) as nat);
        assert(st.stop is Some || values[n - 1].0.0 < st.frame.types.len());
    }
}

pub proof fn lemma_carried_first(st: State, names: Seq<Name>, n: nat, span: Span)
    requires
        sound(st),
    ensures
        sound(carried_first(st, names, n, span).0),
        runs(st, carried_first(st, names, n, span).0),
        are_vars(carried_first(st, names, n, span).0, carried_first(st, names, n, span).1),
        are_plain(carried_first(st, names, n, span).1),
    decreases n,
{
    broadcast use group_runs;

    if n == 0 {
        lemma_runs_here(st);
    } else {
        lemma_carried_first(st, names, (n - 1) as nat, span);
        let (before, _) = carried_first(st, names, (n - 1) as nat, span);
        let name = names[n - 1];
        lemma_local(before, name);
        lemma_diagnose(before, error_view(span, "T0076"@, carried_message(name)));
    }
}

pub proof fn lemma_introduced_first(st: State, names: Seq<Name>, n: nat, span: Span)
    requires
        sound(st),
    ensures
        sound(introduced_first(st, names, n, span).0),
        runs(st, introduced_first(st, names, n, span).0),
        are_vars(introduced_first(st, names, n, span).0, introduced_first(st, names, n, span).1),
        are_plain(introduced_first(st, names, n, span).1),
    decreases n,
{
    broadcast use group_runs;

    if n == 0 {
        lemma_runs_here(st);
    } else {
        lemma_introduced_first(st, names, (n - 1) as nat, span);
        let (before, _) = introduced_first(st, names, (n - 1) as nat, span);
        let name = names[n - 1];
        lemma_local(before, name);
        lemma_diagnose(before, error_view(span, "T0076"@, introduced_message(name)));
    }
}

/// The current values of variables are values: where a variable has none, the
/// first value stands in, which is there because the variable came with one.
pub proof fn lemma_current_values(st: State, vars: Vars)
    requires
        sound(st),
        are_vars(st, vars),
    ensures
        are_values(st, current_values(st, vars)),
{
    if st.stop is None {
        let vs = current_values(st, vars);
        assert forall|i: int| 0 <= i < vs.len() implies (#[trigger] vs[i]).0
            < st.frame.types.len() by {
            lemma_local(st, vars[i].0);
            assert(vars[i].1.0.0 < st.frame.types.len());
        }
    }
}

pub proof fn lemma_prior_values(st: State, vars: Vars)
    requires
        are_vars(st, vars),
    ensures
        are_values(st, prior_values(vars)),
{
    if st.stop is None {
        let vs = prior_values(vars);
        assert forall|i: int| 0 <= i < vs.len() implies (#[trigger] vs[i]).0
            < st.frame.types.len() by {
            assert(vars[i].1.0.0 < st.frame.types.len());
        }
    }
}

/// Whether only values have been defined.
pub open spec fn only_defined(a: State, b: State) -> bool {
    &&& b.frame.insts == a.frame.insts
    &&& b.frame.blocks == a.frame.blocks
    &&& b.frame.current == a.frame.current
    &&& b.frame.next_block == a.frame.next_block
    &&& forall|w: ValueId| unassigned(a, w) ==> #[trigger] unassigned(b, w)
}

pub proof fn lemma_fresh_first(st: State, vars: Vars, n: nat)
    requires
        sound(st),
        are_plain(vars),
        n <= vars.len(),
    ensures
        ({
            let (out, params) = fresh_first(st, vars, n);
            &&& sound(out)
            &&& reaches(st, out)
            &&& only_defined(st, out)
            &&& are_vars(out, params)
            &&& are_plain(params)
            &&& params.len() == n
            &&& out.stop is None ==> forall|i: int|
                0 <= i < n ==> (#[trigger] params[i]).1.0.0 == st.frame.types.len() + i
                    && unassigned(out, params[i].1.0)
        }),
    decreases n,
{
    broadcast use group_runs;

    if n == 0 {
        lemma_runs_here(st);
        lemma_runs_reaches(st, st);
    } else {
        lemma_fresh_first(st, vars, (n - 1) as nat);
        let (before, _) = fresh_first(st, vars, (n - 1) as nat);
        let ty = vars[n - 1].1.1;
        lemma_type_anywhere(ty, before.headings.len());
        lemma_define(before, ty);
        lemma_reaches_on(st, before, before.define(ty).0);
        lemma_fresh_count(st, vars, (n - 1) as nat);
    }
}

pub proof fn lemma_fresh_count(st: State, vars: Vars, n: nat)
    ensures
        fresh_first(st, vars, n).0.stop is None ==> fresh_first(st, vars, n).0.frame.types.len()
            == st.frame.types.len() + n,
    decreases n,
{
    reveal(State::define);
    reveal(State::halted);
    if n > 0 {
        lemma_fresh_count(st, vars, (n - 1) as nat);
    }
}

proof fn lemma_rebound_first(st: State, vars: Vars, n: nat)
    requires
        sound(st),
        are_vars(st, vars),
        n <= vars.len(),
    ensures
        sound(rebound_first(st, vars, n)),
        runs(st, rebound_first(st, vars, n)),
        only_defined(st, rebound_first(st, vars, n)),
        rebound_first(st, vars, n).stop == st.stop,
        rebound_first(st, vars, n).frame.types == st.frame.types,
    decreases n,
{
    broadcast use group_runs;

    if n == 0 {
        lemma_runs_here(st);
    } else {
        lemma_rebound_first(st, vars, (n - 1) as nat);
        let before = rebound_first(st, vars, (n - 1) as nat);
        assert(st.stop is Some || vars[n - 1].1.0.0 < st.frame.types.len());
        lemma_rebind(before, vars[n - 1].0, vars[n - 1].1.0, vars[n - 1].1.1);
    }
}

pub proof fn lemma_rebound(st: State, vars: Vars)
    requires
        sound(st),
        are_vars(st, vars),
    ensures
        sound(rebound(st, vars)),
        runs(st, rebound(st, vars)),
        only_defined(st, rebound(st, vars)),
        rebound(st, vars).stop == st.stop,
        rebound(st, vars).frame.types == st.frame.types,
{
    reveal(rebound);
    lemma_rebound_first(st, vars, vars.len());
}

pub proof fn lemma_taken_over(st: State, v: ValueId, ty: ProcTypeView, from_name: bool)
    requires
        sound(st),
        is_value(st, v),
    ensures
        sound(taken_over(st, v, ty, from_name)),
        runs(st, taken_over(st, v, ty, from_name)),
{
    broadcast use group_runs;

    reveal(taken_over);
    lemma_runs_here(st);
    lemma_emit(st, InstView::Retain { src: v });
    lemma_own(st.emit(InstView::Retain { src: v }), v);
}

pub proof fn lemma_stored(st: State, name: Name, value: ValueId)
    requires
        sound(st),
        is_value(st, value),
    ensures
        sound(stored(st, name, value)),
        runs(st, stored(st, name, value)),
{
    broadcast use group_runs;

    reveal(stored);
    lemma_use_private(st, name);
    lemma_emit(st.use_private(name), InstView::RelvarSlotStore { name, value });
}

proof fn lemma_public_is_there(publics: Seq<(RelvarView, WritePolicy)>, name: Name)
    ensures
        last_public(publics, name) matches Some(p) ==> exists|i: int|
            0 <= i < publics.len() && #[trigger] publics[i] == p,
    decreases publics.len(),
{
    if publics.len() > 0 {
        let rest = publics.drop_last();
        lemma_public_is_there(rest, name);
        match last_public(publics, name) {
            Some(p) => if publics.last().0.name == name {
                assert(publics[publics.len() - 1] == p);
            } else {
                let i = choose|i: int| 0 <= i < rest.len() && #[trigger] rest[i] == p;
                assert(publics[i] == p);
            },
            None => {},
        }
    }
}

pub proof fn lemma_write_allowed(st: State, name: Name, span: Span)
    requires
        sound(st),
    ensures
        sound(write_allowed(st, name, span).0),
        runs(st, write_allowed(st, name, span).0),
        write_allowed(st, name, span).1 ==> may_write(write_allowed(st, name, span).0),
{
    reveal(write_allowed);
    reveal(State::public);
    lemma_public_is_there(st.env.publics, name);
    lemma_runs_here(st);
    lemma_diagnose(st, error_view(span, "T0050"@, view_message(name)));
    lemma_diagnose(st, error_view(span, "T0049"@, backend_message(name)));
}

pub proof fn lemma_assigned_by_statement(st: State, target: RelView, value: RelView)
    requires
        sound(st),
        may_write(st),
    ensures
        sound(assigned_by_statement(st, target, value).0),
        runs(st, assigned_by_statement(st, target, value).0),
{
    broadcast use group_runs;

    reveal(assigned_by_statement);
    let (st1, answer) = st.ask(RequestView::Assign { target, value });
    lemma_ask(st, RequestView::Assign { target, value });
    if let Some(q) = answer {
        lemma_dml(st1, q);
    }
}

proof fn lemma_update_declined(st: State, name: Name, span: Span)
    requires
        sound(st),
    ensures
        sound(update_declined(st, name, span)),
        runs(st, update_declined(st, name, span)),
{
    reveal(update_declined);
    lemma_diagnose(st, error_view(span, "T0049"@, update_message(name)));
}

pub proof fn lemma_public_updated(
    st: State,
    name: Name,
    root: Expr,
    operand: Expr,
    has_where: bool,
    pairs: Seq<(String, Expr)>,
    removed: Seq<Name>,
)
    requires
        sound(st),
    ensures
        sound(public_updated(st, name, root, operand, has_where, pairs, removed)),
        runs(st, public_updated(st, name, root, operand, has_where, pairs, removed)),
{
    broadcast use group_runs;

    reveal(public_updated);
    let (st1, allowed) = write_allowed(st, name, root.span);
    lemma_write_allowed(st, name, root.span);
    if allowed {
        if let Some(target) = built(st1, root) {
            let restrict = built(st1, operand);
            let value = if has_where {
                match restrict {
                    Some(r) => updated_rel(target, Some(r), pairs, removed),
                    None => None,
                }
            } else {
                updated_rel(target, None, pairs, removed)
            };
            lemma_update_declined(st1, name, operand.span);
            if let Some(value) = value {
                let (st2, _) = assigned_by_statement(st1, target, value);
                lemma_assigned_by_statement(st1, target, value);
                lemma_update_declined(st2, name, operand.span);
            }
        }
    }
}

pub proof fn lemma_loaded(st: State, target: Name, rel: ValueId, order: Seq<(String, bool)>)
    requires
        sound(st),
        is_value(st, rel),
    ensures
        sound(loaded(st, target, rel, order)),
        runs(st, loaded(st, target, rel, order)),
{
    broadcast use group_runs;

    reveal(loaded);
    lemma_halted(st, StopView::NotLowered);
    lemma_relation_id(st, rel);
    if let Some(id) = st.relation_id(rel) {
        let h = st.heading_at(id);
        let ty = ProcTypeView::Sequence(Box::new(ProcTypeView::Tuple(h)));
        assert(is_type(st, ty)) by {
            reveal_with_fuel(type_in, 2);
        }
        let (st1, dst) = st.define(ty);
        lemma_define(st, ty);
        let inst = InstView::Load {
            dst,
            src: rel,
            heading_id: id,
            keys: order_keys(h, order, order.len()),
        };
        lemma_define_emit(st, ty, inst);
        let st2 = st1.emit(inst);
        lemma_release_unbound(st2, rel);
        lemma_bind_pending(st2.release_unbound(rel), target, dst, ty);
    }
}

pub proof fn lemma_rows_shipped(st: State, plan_id: u32, src: ValueId)
    requires
        sound(st),
        is_value(st, src),
        may_write(st),
        st.stop is Some || plan_id < st.plans.len(),
    ensures
        sound(rows_shipped(st, plan_id, src).0),
        runs(st, rows_shipped(st, plan_id, src).0),
{
    broadcast use group_runs;

    reveal(rows_shipped);
    lemma_runs_here(st);
    lemma_relation_id(st, src);
    if let Some(id) = st.relation_id(src) {
        let inst = InstView::InsertFrom { plan_id, src, heading_id: id };
        lemma_emit(st, inst);
        lemma_release_unbound(st.emit(inst), src);
    }
}

/// Whether what a loop gives its variable exists, unless lowering has stopped.
pub open spec fn is_loop_var(st: State, var: LoopVar) -> bool {
    match var {
        LoopVar::Counter(_) => true,
        LoopVar::Element { seq, ty, .. } => is_value(st, seq) && is_type(st, ty),
    }
}

pub proof fn lemma_loop_var_bound(st: State, var: LoopVar, counter: ValueId)
    requires
        sound(st),
        is_value(st, counter),
        is_loop_var(st, var),
    ensures
        sound(loop_var_bound(st, var, counter)),
        runs(st, loop_var_bound(st, var, counter)),
{
    broadcast use group_runs;

    reveal(loop_var_bound);
    match var {
        LoopVar::Counter(name) => lemma_bind(st, name, counter, ProcTypeView::Integer),
        LoopVar::Element { seq, ty, name } => {
            let (st1, v) = st.element(seq, counter, ty);
            lemma_element(st, seq, counter, ty);
            lemma_bind(st1, name, v, ty);
        },
    }
}

pub proof fn lemma_sequence_bounds(st: State, seq: ValueId)
    requires
        sound(st),
        is_value(st, seq),
    ensures
        sound(sequence_bounds(st, seq).0),
        runs(st, sequence_bounds(st, seq).0),
        is_value(sequence_bounds(st, seq).0, sequence_bounds(st, seq).1),
        is_value(sequence_bounds(st, seq).0, sequence_bounds(st, seq).2),
{
    broadcast use group_runs;

    reveal(sequence_bounds);
    lemma_symbols();
    let int_type = ProcTypeView::Integer;
    let params = seq![("self"@, ProcTypeView::Relation(HeadingId(0)))];
    let st1 = st.declare("cardinality"@, "coddl_rc_length"@, params, int_type);
    lemma_declare(st, "cardinality"@, "coddl_rc_length"@, params, int_type);
    let (st2, length) = st1.define(int_type);
    lemma_define(st1, int_type);
    lemma_symbol_kept(st1, st2, "coddl_rc_length"@);
    let call = InstView::Call {
        dst: Some(length),
        callee: "coddl_rc_length"@,
        args: seq![seq],
        return_type: int_type,
    };
    lemma_define_emit(st1, int_type, call);
    let st3 = st2.emit(call);
    let (st4, one) = st3.constant(ConstView::Integer(1), int_type);
    lemma_constant(st3, ConstView::Integer(1), int_type);
    let (st5, hi) = st4.define(int_type);
    lemma_define(st4, int_type);
    let minus = InstView::ScalarOp {
        dst: hi,
        op: ScalarOp::Sub,
        operand_type: int_type,
        lhs: length,
        rhs: one,
    };
    lemma_define_emit(st4, int_type, minus);
    lemma_constant(st5.emit(minus), ConstView::Integer(0), int_type);
}

pub proof fn lemma_sequence_held(st: State, seq: ValueId, from_name: bool)
    requires
        sound(st),
        is_value(st, seq),
    ensures
        sound(sequence_held(st, seq, from_name)),
        runs(st, sequence_held(st, seq, from_name)),
{
    broadcast use group_runs;

    reveal(sequence_held);
    let ty = st.type_of(seq);
    lemma_bind(st, "__seq"@, seq, ty);
    lemma_emit(st, InstView::Retain { src: seq });
    lemma_bind(st.emit(InstView::Retain { src: seq }), "__seq"@, seq, ty);
}

} // verus!
