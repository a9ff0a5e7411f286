//! What lowering makes of expressions, statements and blocks.
//!
//! Each definition gives the state after a form has been lowered, and for an
//! expression the value that holds its result.

use crate::ast::{BinaryOp, Block, Callee, Expr, ExprKind, ForRange, Literal, Stmt};
use crate::diag::{error_view, Span};
use crate::ir::{ConstView, InstView, ProcTypeView, TerminatorView, ValueId};
use crate::layout::lays_out;
use crate::lower::assigned::assigned_in_block;
use crate::lower::patterns::{needs_release, unwrapped_heading, wrapped_heading};
use crate::lower::relational::{
    attr_ref, built, sub_keep, sub_names, sub_renames, wraps_of,
};
use crate::lower::state::{chunks_view, name_index, names_in, Bound, ChunkView, RequestView, State};
use crate::lower::steps::{
    assigned_by_statement, attempted, builtin, called, carried_first, cells_with,
    combined_values, consumed_refs, current_values, delete_message, element_type, extracted,
    field_read, formatted, fresh_first, guarded, has_placeholder, in_process, introduced_first,
    introduced_names, literal_lowered, loaded, loads_first, loop_closed, loop_opened,
    loop_var_bound, name_lowered, offered, operator_of, param_names, printed, prior_values,
    public_updated, rebound, relation_made, rows_shipped, scalar_applied, self_message,
    sequence_bounds, sequence_held, sequence_made, shape_message, stored, stores_first,
    taken_over, tuple_made, var_params, widened, with_values, write_allowed, LoopVar, Vars,
};
use crate::rel_analysis::add_each;
use crate::rel_expr::RelView;
use crate::text::{name_pairs_of, names_of, Name};
use crate::types::{canonical, HeadingView, Type, TypeView};
use vstd::prelude::*;

verus! {

/// An expression: evaluated by the database when it can be, else in-process.
pub open spec fn lowered(st: State, e: Expr) -> (State, ValueId)
    decreases e, 20nat, 0nat,
{
    let (st, v) = attempted(st, e);
    match v {
        Some(v) => (st, v),
        None => lowered_here(guarded(st, e), e),
    }
}

/// An expression evaluated in-process.
pub open spec fn lowered_here(st: State, e: Expr) -> (State, ValueId)
    decreases e, 10nat, 0nat,
{
    match e.kind {
        ExprKind::Literal(l) => literal_lowered(st, l),
        ExprKind::Call { callee, args } => match callee {
            Callee::Name(name) => call_lowered(st, name@, args@, None),
            Callee::Method { receiver, method } => {
                let (st, v) = lowered(st, *receiver);
                call_lowered(st, method@, args@, Some(v))
            },
        },
        ExprKind::Transaction { body } => transaction_lowered(st, body),
        ExprKind::TupleLit { fields } => tuple_lowered(st, fields@),
        ExprKind::RelationLit { tuples } => relation_lowered(st, tuples@),
        ExprKind::SequenceLit { elements } => sequence_lowered(st, e.span, elements@),
        ExprKind::FieldAccess { base, field } => {
            let (st, src) = lowered(st, *base);
            field_read(st, src, field@)
        },
        ExprKind::BoolLit(b) => st.constant(ConstView::Boolean(b), ProcTypeView::Boolean),
        ExprKind::Binary { op, lhs, rhs } => if op == BinaryOp::Where {
            where_lowered(st, e)
        } else {
            match operator_of(op) {
                Some(operator) => {
                    let (st, l) = lowered(st, *lhs);
                    let (st, r) = lowered(st, *rhs);
                    scalar_applied(st, operator, l, r)
                },
                None => combination_lowered(st, e),
            }
        },
        ExprKind::Extract { operand } => {
            let (st, src) = lowered(st, *operand);
            extracted(st, src)
        },
        ExprKind::Project { input, attrs, all_but } => {
            let (st, src) = lowered(st, *input);
            let (st, dst) = st.project(src, names_of(attrs@), all_but);
            (st.release_unbound(src), dst)
        },
        ExprKind::Replace { input, pairs } => {
            let (st, src) = lowered(st, *input);
            replaced(st, src, pairs@)
        },
        ExprKind::Rename { input, renames } => {
            let (st, src) = lowered(st, *input);
            let (st, dst) = st.rename(src, name_pairs_of(renames@));
            (st.release_unbound(src), dst)
        },
        ExprKind::Wrap { input, wraps } => {
            let (st, src) = lowered(st, *input);
            match st.relation_id(src) {
                Some(id) => {
                    let h = st.heading_at(id);
                    let (st, dst) = st.restructure(src, wrapped_heading(h, wraps_of(h, wraps@)));
                    (st.release_unbound(src), dst)
                },
                None => st.unlowered(),
            }
        },
        ExprKind::Unwrap { input, attrs } => {
            let (st, src) = lowered(st, *input);
            match st.relation_id(src) {
                Some(id) => {
                    let (st, dst) = st.restructure(
                        src,
                        unwrapped_heading(st.heading_at(id), names_of(attrs@)),
                    );
                    (st.release_unbound(src), dst)
                },
                None => st.unlowered(),
            }
        },
        ExprKind::Extend { input, pairs } => {
            let (st, src) = lowered(st, *input);
            let (st, dst) = extended(st, src, names_in(pairs@), pairs@);
            (st.release_unbound(src), dst)
        },
        ExprKind::Tclose { input, attrs } => {
            let (st, src) = lowered(st, *input);
            let (st, src) = if attrs@.len() == 0 {
                (st, src)
            } else {
                let (st, narrowed) = st.project(src, names_of(attrs@), false);
                (st.release_unbound(src), narrowed)
            };
            let (st, dst) = st.close(src);
            (st.release_unbound(src), dst)
        },
        ExprKind::Index { sequence, index } => {
            let (st, seq) = lowered(st, *sequence);
            match st.type_of(seq) {
                ProcTypeView::Sequence(elem) => {
                    let (st, i) = lowered(st, *index);
                    st.element(seq, i, *elem)
                },
                _ => st.unlowered(),
            }
        },
        ExprKind::If { condition, then_body, else_body } => if_lowered(st, e),
        ExprKind::NameRef(name) => name_lowered(st, e.span, name@),
    }
}

/// A call by name, with the receiver as `self` when there is one.
pub open spec fn call_lowered(
    st: State,
    name: Name,
    args: Seq<(String, Expr)>,
    receiver: Option<ValueId>,
) -> (State, ValueId)
    decreases args, 5nat, 0nat,
{
    if name == "write_relation"@ {
        let (st, rel) = arg_lowered(st, "rel"@, args, None);
        printed(st, rel)
    } else if name == "format"@ {
        format_lowered(st, args)
    } else if name == "to_text"@ {
        let (st, v) = arg_lowered(st, "self"@, args, receiver);
        st.to_text(v)
    } else if name == "write_line"@ && names_in(args).contains("template"@) {
        let (st, text) = format_lowered(st, args);
        let st = st.declare(
            "write_line"@,
            "coddl_write_line"@,
            seq![("message"@, ProcTypeView::Text)],
            ProcTypeView::Unit,
        );
        let st = st.emit(
            InstView::Call {
                dst: None,
                callee: "coddl_write_line"@,
                args: seq![text],
                return_type: ProcTypeView::Unit,
            },
        );
        st.release_temp(text).define(ProcTypeView::Unit)
    } else {
        match st.oper(name) {
            Some(sig) => {
                let names = param_names(sig.0);
                let (st, vs) = args_lowered(st, names, names.len(), args, receiver);
                called(st, name, vs, sig.1, false)
            },
            None => match builtin(name) {
                Some(sig) => {
                    let names = param_names(sig.1);
                    let (st, vs) = args_lowered(st, names, names.len(), args, receiver);
                    let st = st.declare(name, sig.0, sig.1, sig.2);
                    called(st, sig.0, vs, sig.2, true)
                },
                None => st.unlowered(),
            },
        }
    }
}

/// The argument of a parameter: the receiver for `self`, else the one of its
/// name.
pub open spec fn arg_lowered(
    st: State,
    name: Name,
    args: Seq<(String, Expr)>,
    receiver: Option<ValueId>,
) -> (State, ValueId)
    decreases args, 0nat, 0nat,
{
    if name == "self"@ && receiver is Some {
        (st, receiver->0)
    } else {
        let i = name_index(names_in(args), name);
        if i < args.len() {
            proof {
                assert(decreases_to!(args => args[i as int]));
                assert(decreases_to!(args[i as int] => args[i as int].1));
            }
            lowered(st, args[i as int].1)
        } else {
            st.unlowered()
        }
    }
}

/// The arguments of the first `n` parameters.
pub open spec fn args_lowered(
    st: State,
    names: Seq<Name>,
    n: nat,
    args: Seq<(String, Expr)>,
    receiver: Option<ValueId>,
) -> (State, Seq<ValueId>)
    decreases args, 1nat, n,
{
    if n == 0 {
        (st, Seq::empty())
    } else {
        let (before, vs) = args_lowered(st, names, (n - 1) as nat, args, receiver);
        let (after, v) = arg_lowered(before, names[n - 1], args, receiver);
        (after, vs.push(v))
    }
}

/// The pieces of the template that a format call names.
pub open spec fn template_of(st: State, args: Seq<(String, Expr)>) -> Option<Seq<ChunkView>> {
    let i = name_index(names_in(args), "template"@);
    if i < args.len() {
        match args[i as int].1.kind {
            ExprKind::Literal(Literal::Format(chunks)) => Some(chunks_view(chunks@)),
            ExprKind::NameRef(name) => st.template(name@),
            _ => None,
        }
    } else {
        None
    }
}

/// A template filled with its arguments.
pub open spec fn format_lowered(st: State, args: Seq<(String, Expr)>) -> (State, ValueId)
    decreases args, 2nat, 0nat,
{
    match template_of(st, args) {
        Some(chunks) => if has_placeholder(chunks) && names_in(args).contains("args"@) {
            let (st, tuple) = arg_lowered(st, "args"@, args, None);
            formatted(st, chunks, Some(tuple))
        } else {
            formatted(st, chunks, None)
        },
        None => st.unlowered(),
    }
}

/// A transaction: its body, between a begin and a commit when there is a plan.
pub open spec fn transaction_lowered(st: State, body: Block) -> (State, ValueId)
    decreases body, 1nat, 0nat,
{
    let st = st.push_scope().bracket("coddl_begin_tx"@);
    let (st, v) = block_lowered(st, body);
    let st = st.bracket("coddl_commit_tx"@);
    (st.retain_escaping(v).release_scope().pop_scope(), v)
}

/// The first `n` fields of a tuple, with the texts that are stored into it.
pub open spec fn fields_lowered(st: State, fields: Seq<(String, Expr)>, n: nat) -> (
    State,
    Vars,
    Seq<ValueId>,
)
    decreases fields, 0nat, n,
{
    if n == 0 || n > fields.len() {
        (st, Seq::empty(), Seq::empty())
    } else {
        proof {
            assert(decreases_to!(fields => fields[n - 1]));
            assert(decreases_to!(fields[n - 1] => fields[n - 1].1));
        }
        let (before, vars, temps) = fields_lowered(st, fields, (n - 1) as nat);
        let (after, v) = lowered(before, fields[n - 1].1);
        let ty = after.type_of(v);
        (
            after,
            vars.push((fields[n - 1].0@, (v, ty))),
            temps + stored_texts(after, fields[n - 1].1, v, ty),
        )
    }
}

/// The texts that a field stores into its tuple: itself, or those of a tuple
/// written in its place.
pub open spec fn stored_texts(st: State, e: Expr, v: ValueId, ty: ProcTypeView) -> Seq<ValueId> {
    match ty {
        ProcTypeView::Text => if e.kind is NameRef {
            Seq::empty()
        } else {
            seq![v]
        },
        ProcTypeView::Tuple(_) => if e.kind is TupleLit {
            st.temps(v)
        } else {
            Seq::empty()
        },
        _ => Seq::empty(),
    }
}

/// A tuple.
pub open spec fn tuple_lowered(st: State, fields: Seq<(String, Expr)>) -> (State, ValueId)
    decreases fields, 1nat, 0nat,
{
    let (st, vars, temps) = fields_lowered(st, fields, fields.len());
    tuple_made(st, vars, temps)
}

/// The first `n` tuples of a relation.
pub open spec fn tuples_lowered(st: State, tuples: Seq<Vec<(String, Expr)>>, n: nat) -> (
    State,
    Seq<ValueId>,
)
    decreases tuples, 0nat, n,
{
    if n == 0 || n > tuples.len() {
        (st, Seq::empty())
    } else {
        proof {
            assert(decreases_to!(tuples => tuples[n - 1]));
            assert(decreases_to!(tuples[n - 1] => tuples[n - 1]@));
        }
        let (before, vs) = tuples_lowered(st, tuples, (n - 1) as nat);
        let (after, v) = tuple_lowered(before, tuples[n - 1]@);
        (after, vs.push(v))
    }
}

/// A relation of its tuples.
pub open spec fn relation_lowered(st: State, tuples: Seq<Vec<(String, Expr)>>) -> (State, ValueId)
    decreases tuples, 1nat, 0nat,
{
    if tuples.len() == 0 {
        st.empty_relation(Seq::empty())
    } else {
        let (st, vs) = tuples_lowered(st, tuples, tuples.len());
        relation_made(st, vs)
    }
}

/// The first `n` elements of a sequence.
pub open spec fn elements_lowered(st: State, es: Seq<Expr>, n: nat) -> (State, Seq<ValueId>)
    decreases es, 0nat, n,
{
    if n == 0 || n > es.len() {
        (st, Seq::empty())
    } else {
        let (before, vs) = elements_lowered(st, es, (n - 1) as nat);
        let (after, v) = lowered(before, es[n - 1]);
        (after, vs.push(v))
    }
}

/// A sequence of its elements.
pub open spec fn sequence_lowered(st: State, span: Span, es: Seq<Expr>) -> (State, ValueId)
    decreases es, 1nat, 0nat,
{
    if es.len() == 0 {
        st.diagnose(
            error_view(span, "T0064"@, "empty sequence values are not yet executable"@),
        ).define(ProcTypeView::Unit)
    } else {
        let (st, vs) = elements_lowered(st, es, es.len());
        sequence_made(st, vs)
    }
}

/// A restriction: a predicate function that tells which tuples stay.
pub open spec fn where_lowered(st: State, e: Expr) -> (State, ValueId)
    decreases e, 8nat, 0nat,
{
    match e.kind {
        ExprKind::Binary { op, lhs, rhs } => {
            let (outer, src) = lowered(st, *lhs);
            match outer.relation_id(src) {
                Some(id) => if lays_out(outer.heading_at(id)) {
                    let h = outer.heading_at(id);
                    let (outer, name) = outer.where_name();
                    let (inner, record) = outer.enter().take_param(ProcTypeView::Pointer);
                    let (inner, _) = loads_first(inner.begin_body(), record, h, h.len());
                    let (inner, accepted) = lowered(inner, *rhs);
                    let inner = inner.release_deferred().finish_block(
                        TerminatorView::Return(Some(accepted)),
                    );
                    let st = inner.leave(
                        outer.frame,
                        name,
                        seq![("record_ptr"@, ProcTypeView::Pointer)],
                        ProcTypeView::Boolean,
                    );
                    let (st, dst) = st.define(ProcTypeView::Relation(id));
                    let st = st.emit(
                        InstView::Where { dst, src, predicate_linkage: name, heading_id: id },
                    );
                    (st.release_unbound(src), dst)
                } else {
                    outer.unlowered()
                },
                None => outer.unlowered(),
            }
        },
        _ => st.unlowered(),
    }
}

/// A relational operator on two operands, in-process.
pub open spec fn combination_lowered(st: State, e: Expr) -> (State, ValueId)
    decreases e, 8nat, 0nat,
{
    match e.kind {
        ExprKind::Binary { op, lhs, rhs } => {
            let (st, v) = match built(st, e) {
                Some(rel) => in_process(st, rel),
                None => (st, None),
            };
            match v {
                Some(v) => (st, v),
                None => {
                    let (st, l) = lowered(st, *lhs);
                    let (st, r) = lowered(st, *rhs);
                    combined_values(st, op, l, r)
                },
            }
        },
        _ => st.unlowered(),
    }
}

/// The first `n` values of an extension, with their types.
pub open spec fn values_lowered(st: State, pairs: Seq<(String, Expr)>, n: nat) -> (
    State,
    Seq<Bound>,
)
    decreases pairs, 0nat, n,
{
    if n == 0 || n > pairs.len() {
        (st, Seq::empty())
    } else {
        proof {
            assert(decreases_to!(pairs => pairs[n - 1]));
            assert(decreases_to!(pairs[n - 1] => pairs[n - 1].1));
        }
        let (before, vs) = values_lowered(st, pairs, (n - 1) as nat);
        let (after, v) = lowered(before, pairs[n - 1].1);
        (after, vs.push((v, after.type_of(v))))
    }
}

/// A lowered relation with computed attributes of those names: a function that
/// fills the wider record from the narrower one.
pub open spec fn extended(
    st: State,
    src: ValueId,
    names: Seq<Name>,
    pairs: Seq<(String, Expr)>,
) -> (State, ValueId)
    decreases pairs, 1nat, 0nat,
{
    match st.relation_id(src) {
        Some(id) => if lays_out(st.heading_at(id)) {
            let h = st.heading_at(id);
            let (outer, name) = st.extend_name();
            let (inner, source) = outer.enter().take_param(ProcTypeView::Pointer);
            let (inner, target) = inner.take_param(ProcTypeView::Pointer);
            let (inner, cells) = loads_first(inner.begin_body(), source, h, h.len());
            let (inner, values) = values_lowered(inner, pairs, pairs.len());
            match widened(h, names, values, pairs.len()) {
                Some(attrs) => if lays_out(canonical(attrs)) {
                    let wide = canonical(attrs);
                    let (inner, result) = inner.intern(wide);
                    let inner = stores_first(
                        inner,
                        target,
                        wide,
                        cells_with(cells, names, values, pairs.len()),
                        wide.len(),
                    );
                    let inner = inner.release_deferred().finish_block(
                        TerminatorView::Return(None),
                    );
                    let st = inner.leave(
                        outer.frame,
                        name,
                        seq![
                            ("src_record"@, ProcTypeView::Pointer),
                            ("dst_record"@, ProcTypeView::Pointer),
                        ],
                        ProcTypeView::Unit,
                    );
                    let (st, dst) = st.define(ProcTypeView::Relation(result));
                    (
                        st.emit(
                            InstView::Extend {
                                dst,
                                src,
                                helper_linkage: name,
                                src_heading_id: id,
                                result_heading_id: result,
                            },
                        ),
                        dst,
                    )
                } else {
                    inner.unlowered()
                },
                None => inner.unlowered(),
            }
        } else {
            st.unlowered()
        },
        None => st.unlowered(),
    }
}

/// A lowered relation with attributes overwritten.
pub open spec fn overwritten(
    st: State,
    src: ValueId,
    pairs: Seq<(String, Expr)>,
    removed: Seq<Name>,
) -> (State, ValueId)
    decreases pairs, 2nat, 0nat,
{
    match st.relation_id(src) {
        Some(id) => {
            let h = st.heading_at(id);
            let names = names_in(pairs);
            let (st, wide) = extended(st, src, sub_names(h, names), pairs);
            let st = st.release_unbound(src);
            let (st, narrow) = st.project(wide, sub_keep(h, names, removed), false);
            let st = st.release_unbound(wide);
            if sub_renames(h, names).len() == 0 {
                (st, narrow)
            } else {
                let (st, dst) = st.rename(narrow, sub_renames(h, names));
                (st.release_unbound(narrow), dst)
            }
        },
        None => st.unlowered(),
    }
}

/// A lowered relation with attributes replaced by values computed from them.
pub open spec fn replaced(st: State, src: ValueId, pairs: Seq<(String, Expr)>) -> (State, ValueId)
    decreases pairs, 3nat, 0nat,
{
    match st.relation_id(src) {
        Some(id) => overwritten(st, src, pairs, consumed_refs(pairs, st.heading_at(id))),
        None => st.unlowered(),
    }
}

/// A block in a layer of its own, as a branch of a conditional.
pub open spec fn arm_lowered(st: State, b: Block) -> (State, ValueId)
    decreases b, 1nat, 0nat,
{
    let (st, v) = block_lowered(st.push_scope(), b);
    (st.retain_escaping(v).release_scope().pop_scope(), v)
}

/// The names assigned to in either branch.
pub open spec fn branch_names(then_body: Block, else_body: Option<Block>) -> Seq<Name> {
    match else_body {
        Some(b) => assigned_in_block(then_body) + assigned_in_block(b),
        None => assigned_in_block(then_body),
    }
}

/// A conditional.
pub open spec fn if_lowered(st: State, e: Expr) -> (State, ValueId)
    decreases e, 8nat, 0nat,
{
    match e.kind {
        ExprKind::If { condition, then_body, else_body } => {
            let names = add_each(Seq::empty(), branch_names(then_body, else_body));
            let (st, carried) = carried_first(st, names, names.len(), e.span);
            let (st, cond) = lowered(st, *condition);
            if else_body is None && carried.len() == 0 {
                let (st, then_id) = st.fresh_block();
                let (st, merge_id) = st.fresh_block();
                let st = st.finish_block(
                    TerminatorView::CondBr { cond, then_block: then_id, else_block: merge_id },
                );
                let (st, _) = arm_lowered(st.start_block(then_id, Seq::empty()), then_body);
                let st = st.finish_block(
                    TerminatorView::Br { target: merge_id, args: Seq::empty() },
                );
                let (st, result) = st.define(ProcTypeView::Unit);
                (st.start_block(merge_id, Seq::empty()), result)
            } else {
                branches_lowered(st, e, carried, cond)
            }
        },
        _ => st.unlowered(),
    }
}

/// The two branches of a conditional and the block where they meet, which takes
/// the result and the variables that change.
pub open spec fn branches_lowered(st: State, e: Expr, carried: Vars, cond: ValueId) -> (
    State,
    ValueId,
)
    decreases e, 7nat, 0nat,
{
    match e.kind {
        ExprKind::If { condition, then_body, else_body } => {
            let new_names = match else_body {
                Some(b) => introduced_names(
                    st,
                    assigned_in_block(then_body),
                    assigned_in_block(b),
                ),
                None => Seq::empty(),
            };
            let (st, then_id) = st.fresh_block();
            let (st, else_id) = st.fresh_block();
            let (st, merge_id) = st.fresh_block();
            let st = st.finish_block(
                TerminatorView::CondBr { cond, then_block: then_id, else_block: else_id },
            );
            let (st, then_val) = arm_lowered(st.start_block(then_id, Seq::empty()), then_body);
            let ty = st.type_of(then_val);
            let (st, introduced) = introduced_first(st, new_names, new_names.len(), e.span);
            let st = st.finish_block(
                TerminatorView::Br {
                    target: merge_id,
                    args: result_args(ty, then_val) + current_values(st, carried) + prior_values(
                        introduced,
                    ),
                },
            );
            let st = rebound(st, carried).start_block(else_id, Seq::empty());
            let (st, else_val) = match else_body {
                Some(b) => arm_lowered(st, b),
                None => st.define(ProcTypeView::Unit),
            };
            let st = st.finish_block(
                TerminatorView::Br {
                    target: merge_id,
                    args: result_args(ty, else_val) + current_values(st, carried)
                        + current_values(st, introduced),
                },
            );
            merged(st, merge_id, ty, carried, introduced)
        },
        _ => st.unlowered(),
    }
}

/// The result that a branch hands on; none for `Unit`.
pub open spec fn result_args(ty: ProcTypeView, v: ValueId) -> Seq<ValueId> {
    if ty is Unit {
        Seq::empty()
    } else {
        seq![v]
    }
}

/// The block where two branches meet begun.
#[verifier::opaque]
pub open spec fn merged(
    st: State,
    merge_id: crate::ir::BlockId,
    ty: ProcTypeView,
    carried: Vars,
    introduced: Vars,
) -> (State, ValueId) {
    let (st, result) = st.define(ty);
    let st = if ty is Text {
        st.own(result)
    } else {
        st
    };
    let (st, carried_params) = fresh_first(st, carried, carried.len());
    let (st, new_params) = fresh_first(st, introduced, introduced.len());
    let own_param = if ty is Unit {
        Seq::empty()
    } else {
        seq![(result, ty)]
    };
    let st = st.start_block(
        merge_id,
        own_param + var_params(carried_params) + var_params(new_params),
    );
    (rebound(rebound(st, carried_params), new_params), result)
}

/// A block: its statements, then the expression whose value it has.
pub open spec fn block_lowered(st: State, b: Block) -> (State, ValueId)
    decreases b, 0nat, 0nat,
{
    let st = stmts_lowered(st, b.statements@, b.statements@.len());
    match b.tail {
        Some(e) => lowered(st, *e),
        None => st.define(ProcTypeView::Unit),
    }
}

/// The first `n` statements.
pub open spec fn stmts_lowered(st: State, stmts: Seq<Stmt>, n: nat) -> State
    decreases stmts, 0nat, n,
{
    if n == 0 || n > stmts.len() {
        st
    } else {
        stmt_lowered(stmts_lowered(st, stmts, (n - 1) as nat), stmts[n - 1])
    }
}

/// A statement.
pub open spec fn stmt_lowered(st: State, s: Stmt) -> State
    decreases s, 5nat, 0nat,
{
    match s {
        Stmt::Let { name, annotation, value } => let_lowered(st, name@, annotation, value),
        Stmt::Var { name, annotation, value } => match value {
            Some(v) => binding_lowered(st, name@, annotation, v),
            None => st.add_pending(name@),
        },
        Stmt::Assign { target, value } => assign_lowered(st, target, value),
        Stmt::Truncate { operand } => truncate_lowered(st, operand),
        Stmt::Delete { operand } => delete_lowered(st, operand),
        Stmt::Insert { target, source } => insert_lowered(st, s),
        Stmt::Update { operand, pairs } => update_lowered(st, s),
        Stmt::Expr(e) => lowered(st, e).0,
        Stmt::For { span, name, over, body } => for_lowered(st, s),
        Stmt::While { span, condition, body } => while_lowered(st, s),
        Stmt::DoWhile { span, body, condition } => do_while_lowered(st, s),
        Stmt::Load { target, source, order } => {
            let (st, rel) = lowered(st, source);
            loaded(st, target@, rel, order@)
        },
    }
}

/// A `let`: a format template or a relational expression for the database is
/// only named; anything else is evaluated.
pub open spec fn let_lowered(st: State, name: Name, annotation: Option<Type>, value: Expr) -> State
    decreases value, 22nat, 0nat,
{
    match value.kind {
        ExprKind::Literal(Literal::Format(chunks)) => st.bind_template(name, chunks_view(chunks@)),
        _ => if st.env.pushes {
            match built(st, value) {
                Some(rel) => {
                    let (st, answer) = offered(st, rel);
                    match answer {
                        Some(q) => st.bind_alias(name, rel),
                        None => binding_lowered(st, name, annotation, value),
                    }
                },
                None => binding_lowered(st, name, annotation, value),
            }
        } else {
            binding_lowered(st, name, annotation, value)
        },
    }
}

/// The heading that an annotation gives a relation.
pub open spec fn annotated_heading(annotation: Option<Type>) -> HeadingView {
    match annotation {
        Some(t) => match t@ {
            TypeView::Relation(h) => h,
            _ => Seq::empty(),
        },
        None => Seq::empty(),
    }
}

/// A binding to the value of an expression. A relation without tuples takes
/// its heading from the annotation.
pub open spec fn binding_lowered(
    st: State,
    name: Name,
    annotation: Option<Type>,
    value: Expr,
) -> State
    decreases value, 21nat, 0nat,
{
    let (st, v) = match value.kind {
        ExprKind::RelationLit { tuples } => if tuples@.len() == 0 {
            st.empty_relation(annotated_heading(annotation))
        } else {
            lowered(st, value)
        },
        _ => lowered(st, value),
    };
    let ty = st.type_of(v);
    taken_over(st, v, ty, value.kind is NameRef).bind(name, v, ty)
}

/// An assignment to a variable or a relvar.
pub open spec fn assign_lowered(st: State, target: Expr, value: Expr) -> State
    decreases value, 23nat, 0nat,
{
    match target.kind {
        ExprKind::NameRef(name) => if attr_ref(value) == Some(name@) {
            st
        } else {
            match st.local(name@) {
                Some(old_binding) => {
                    let (st, v) = lowered(st, value);
                    let ty = st.type_of(v);
                    let st = if needs_release(st, old_binding.0, old_binding.1) {
                        st.emit(InstView::Release { src: old_binding.0 })
                    } else {
                        st
                    };
                    taken_over(st, v, ty, value.kind is NameRef).rebind(name@, v, ty)
                },
                None => if st.is_pending(name@) {
                    let (st, v) = lowered(st, value);
                    let ty = st.type_of(v);
                    taken_over(st, v, ty, value.kind is NameRef).bind_pending(name@, v, ty)
                } else if st.public(name@) is Some {
                    public_assign_lowered(st, name@, target, value)
                } else {
                    let (st, v) = lowered(st, value);
                    stored(st, name@, v)
                },
            }
        },
        _ => st,
    }
}

/// The other operand of a union with the relvar.
pub open spec fn union_source(name: Name, value: Expr) -> Option<Expr> {
    match value.kind {
        ExprKind::Binary { op, lhs, rhs } => if op != BinaryOp::Union {
            None
        } else if attr_ref(*lhs) == Some(name) {
            Some(*rhs)
        } else if attr_ref(*rhs) == Some(name) {
            Some(*lhs)
        } else {
            None
        },
        _ => None,
    }
}

/// An assignment to a public relvar: by one statement, by shipping the rows of
/// the other operand of a union, or by emptying the relvar and filling it.
pub open spec fn public_assign_lowered(st: State, name: Name, target: Expr, value: Expr) -> State
    decreases value, 22nat, 0nat,
{
    let (st, allowed) = write_allowed(st, name, target.span);
    if !allowed {
        st
    } else {
        let (st, done) = match (built(st, target), built(st, value)) {
            (Some(t), Some(r)) => assigned_by_statement(st, t, r),
            _ => (st, false),
        };
        if done {
            st
        } else {
            let (st, done) = match union_source(name, value) {
                Some(source) => match built(st, target) {
                    Some(t) => shipped(st, t, source),
                    None => (st, false),
                },
                None => (st, false),
            };
            if done {
                st
            } else {
                match built(st, target) {
                    Some(t) => match t {
                        RelView::RelvarRef { table_name, .. } => refilled(
                            st,
                            name,
                            t,
                            table_name,
                            value,
                        ),
                        _ => st,
                    },
                    None => st,
                }
            }
        }
    }
}

/// The rows of an expression inserted into a public relvar; whether they could
/// be.
pub open spec fn shipped(st: State, target: RelView, source: Expr) -> (State, bool)
    decreases source, 21nat, 0nat,
{
    let (st, answer) = st.ask(RequestView::InsertTemplate { target });
    match answer {
        Some(q) => {
            let (st, heading_id) = st.intern(q.result_heading);
            let (st, plan_id) = st.plan(q, heading_id);
            let (st, src) = lowered(st, source);
            rows_shipped(st, plan_id, src)
        },
        None => (st, false),
    }
}

/// A public relvar emptied and filled with the value's rows.
pub open spec fn refilled(
    st: State,
    name: Name,
    target: RelView,
    table: Name,
    value: Expr,
) -> State
    decreases value, 21nat, 0nat,
{
    let x = built(st, value);
    if x matches Some(r) && r.references_table(table) {
        st.diagnose(error_view(value.span, "T0049"@, self_message(name)))
    } else {
        let (st, done) = match x {
            Some(r) => replaced_by_query(st, target, r),
            None => (st, false),
        };
        if done {
            st
        } else {
            let (st, template) = st.ask(RequestView::InsertTemplate { target });
            let (st, truncate) = match template {
                Some(_) => st.ask(RequestView::Truncate { target }),
                None => (st, None),
            };
            let (st, done) = match (template, truncate) {
                (Some(q), Some(t)) => {
                    let st = st.dml(t);
                    let (st, heading_id) = st.intern(q.result_heading);
                    let (st, plan_id) = st.plan(q, heading_id);
                    let (st, src) = lowered(st, value);
                    rows_shipped(st, plan_id, src)
                },
                _ => (st, false),
            };
            if done {
                st
            } else {
                st.diagnose(error_view(value.span, "T0049"@, shape_message(name)))
            }
        }
    }
}

/// A public relvar emptied and filled by a query; whether it could be.
#[verifier::opaque]
pub open spec fn replaced_by_query(st: State, target: RelView, value: RelView) -> (State, bool) {
    let (st, insert) = st.ask(RequestView::ReplaceInsert { target, value });
    match insert {
        Some(insert) => {
            let (st, truncate) = st.ask(RequestView::Truncate { target });
            match truncate {
                Some(truncate) => (st.dml(truncate).dml(insert), true),
                None => (st, false),
            }
        },
        None => (st, false),
    }
}

/// A relvar emptied.
pub open spec fn truncate_lowered(st: State, operand: Expr) -> State
    decreases operand, 21nat, 0nat,
{
    match operand.kind {
        ExprKind::NameRef(name) => if st.public(name@) is Some {
            let (st, allowed) = write_allowed(st, name@, operand.span);
            if allowed {
                match built(st, operand) {
                    Some(t) => assigned_by_statement(
                        st,
                        t,
                        RelView::Minus { lhs: Box::new(t), rhs: Box::new(t) },
                    ).0,
                    None => st,
                }
            } else {
                st
            }
        } else {
            let (st, l) = lowered(st, operand);
            let (st, r) = lowered(st, operand);
            let (st, v) = st.subtract(l, r);
            stored(st, name@, v)
        },
        _ => st,
    }
}

/// Tuples deleted from a relvar: those that the operand's condition accepts.
pub open spec fn delete_lowered(st: State, operand: Expr) -> State
    decreases operand, 21nat, 0nat,
{
    match operand.kind {
        ExprKind::Binary { op, lhs, rhs } => match attr_ref(*lhs) {
            Some(name) => if st.public(name) is Some {
                let (st, allowed) = write_allowed(st, name, operand.span);
                if allowed {
                    let (st, done) = match (built(st, *lhs), built(st, operand)) {
                        (Some(t), Some(r)) => assigned_by_statement(
                            st,
                            t,
                            RelView::Minus { lhs: Box::new(t), rhs: Box::new(r) },
                        ),
                        _ => (st, false),
                    };
                    if done {
                        st
                    } else {
                        st.diagnose(error_view(operand.span, "T0049"@, delete_message(name)))
                    }
                } else {
                    st
                }
            } else {
                let (st, l) = lowered(st, *lhs);
                let (st, r) = lowered(st, operand);
                let (st, v) = st.subtract(l, r);
                stored(st, name, v)
            },
            None => st,
        },
        _ => st,
    }
}

/// Tuples inserted into a relvar.
pub open spec fn insert_lowered(st: State, s: Stmt) -> State
    decreases s, 4nat, 0nat,
{
    match s {
        Stmt::Insert { target, source } => match attr_ref(target) {
            Some(name) => if st.public(name) is Some {
                let (st, allowed) = write_allowed(st, name, target.span);
                if allowed {
                    match built(st, target) {
                        Some(t) => {
                            let (st, done) = match built(st, source) {
                                Some(r) => assigned_by_statement(
                                    st,
                                    t,
                                    RelView::Or { lhs: Box::new(t), rhs: Box::new(r) },
                                ),
                                None => (st, false),
                            };
                            if done {
                                st
                            } else {
                                shipped(st, t, source).0
                            }
                        },
                        None => st,
                    }
                } else {
                    st
                }
            } else {
                let (st, l) = lowered(st, target);
                let (st, r) = lowered(st, source);
                let (st, v) = st.unite(l, r);
                stored(st, name, v)
            },
            None => st,
        },
        _ => st,
    }
}

/// The relvar that an update's operand restricts, and whether it does.
pub open spec fn update_root(operand: Expr) -> Option<(Expr, bool)> {
    match operand.kind {
        ExprKind::NameRef(_) => Some((operand, false)),
        ExprKind::Binary { op, lhs, rhs } => if op == BinaryOp::Where {
            Some((*lhs, true))
        } else {
            None
        },
        _ => None,
    }
}

/// Attributes of a relvar's tuples overwritten.
pub open spec fn update_lowered(st: State, s: Stmt) -> State
    decreases s, 4nat, 0nat,
{
    match s {
        Stmt::Update { operand, pairs } => match update_root(operand) {
            Some((root, has_where)) => match attr_ref(root) {
                Some(name) => if st.public(name) is Some {
                    public_updated(
                        st,
                        name,
                        root,
                        operand,
                        has_where,
                        pairs@,
                        names_in(pairs@),
                    )
                } else {
                    let (st, matching) = lowered(st, operand);
                    let (st, changed) = overwritten(st, matching, pairs@, names_in(pairs@));
                    if has_where {
                        let (st, all) = lowered(st, root);
                        let (st, again) = lowered(st, operand);
                        let (st, unchanged) = st.subtract(all, again);
                        let (st, v) = st.unite(unchanged, changed);
                        stored(st, name, v)
                    } else {
                        stored(st, name, changed)
                    }
                },
                None => st,
            },
            None => st,
        },
        _ => st,
    }
}

/// A loop over numbers or over the elements of a sequence.
pub open spec fn for_lowered(st: State, s: Stmt) -> State
    decreases s, 4nat, 0nat,
{
    match s {
        Stmt::For { span, name, over, body } => match over {
            ForRange::Counted { low, high } => {
                let (st, lo) = lowered(st, low);
                let (st, hi) = lowered(st, high);
                counted_loop(st, lo, hi, body, span, LoopVar::Counter(name@))
            },
            ForRange::Elements(e) => {
                let (st, seq) = lowered(st.push_scope(), e);
                let ty = st.type_of(seq);
                let st = sequence_held(st, seq, e.kind is NameRef);
                let (st, lo, hi) = sequence_bounds(st, seq);
                let var = LoopVar::Element { seq, ty: element_type(ty), name: name@ };
                counted_loop(st, lo, hi, body, span, var).release_scope().pop_scope()
            },
        },
        _ => st,
    }
}

/// A loop that counts from one value to another, both included.
pub open spec fn counted_loop(
    st: State,
    lo: ValueId,
    hi: ValueId,
    body: Block,
    span: Span,
    var: LoopVar,
) -> State
    decreases body, 2nat, 0nat,
{
    let names = add_each(Seq::empty(), assigned_in_block(body));
    let (st, carried) = carried_first(st, names, names.len(), span);
    let (st, header) = st.fresh_block();
    let (st, body_id) = st.fresh_block();
    let (st, exit) = st.fresh_block();
    let (st, counter, params) = loop_opened(st, lo, hi, carried, header, body_id, exit);
    let st = loop_var_bound(st.push_scope(), var, counter);
    let (st, _) = block_lowered(st, body);
    let st = st.release_scope().pop_scope();
    loop_closed(st, counter, carried, params, header, exit)
}

/// A loop that tests its condition before each round.
pub open spec fn while_lowered(st: State, s: Stmt) -> State
    decreases s, 4nat, 0nat,
{
    match s {
        Stmt::While { span, condition, body } => {
            let names = add_each(Seq::empty(), assigned_in_block(body));
            let (st, carried) = carried_first(st, names, names.len(), span);
            let (st, header) = st.fresh_block();
            let (st, body_id) = st.fresh_block();
            let (st, exit) = st.fresh_block();
            let st = st.finish_block(
                TerminatorView::Br { target: header, args: prior_values(carried) },
            );
            let (st, params) = fresh_first(st, carried, carried.len());
            let st = rebound(st.start_block(header, var_params(params)), params);
            let (st, cond) = lowered(st, condition);
            let st = st.finish_block(
                TerminatorView::CondBr { cond, then_block: body_id, else_block: exit },
            );
            let st = st.start_block(body_id, Seq::empty()).push_scope();
            let (st, _) = block_lowered(st, body);
            let st = st.release_scope().pop_scope();
            let st = st.finish_block(
                TerminatorView::Br { target: header, args: current_values(st, carried) },
            );
            rebound(st.start_block(exit, Seq::empty()), params)
        },
        _ => st,
    }
}

/// A loop that tests its condition after each round.
pub open spec fn do_while_lowered(st: State, s: Stmt) -> State
    decreases s, 4nat, 0nat,
{
    match s {
        Stmt::DoWhile { span, body, condition } => {
            let names = add_each(Seq::empty(), assigned_in_block(body));
            let (st, carried) = carried_first(st, names, names.len(), span);
            let (st, body_id) = st.fresh_block();
            let (st, latch) = st.fresh_block();
            let (st, exit) = st.fresh_block();
            let st = st.finish_block(
                TerminatorView::Br { target: body_id, args: prior_values(carried) },
            );
            let (st, params) = fresh_first(st, carried, carried.len());
            let st = rebound(st.start_block(body_id, var_params(params)), params).push_scope();
            let (st, _) = block_lowered(st, body);
            let st = st.release_scope().pop_scope();
            let now = current_values(st, carried);
            let (st, cond) = lowered(st, condition);
            let st = st.finish_block(
                TerminatorView::CondBr { cond, then_block: latch, else_block: exit },
            );
            let st = st.start_block(latch, Seq::empty()).finish_block(
                TerminatorView::Br { target: body_id, args: now },
            );
            rebound(st.start_block(exit, Seq::empty()), with_values(carried, now))
        },
        _ => st,
    }
}

} // verus!
