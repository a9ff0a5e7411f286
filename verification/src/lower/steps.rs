//! The steps of lowering that look at no subexpression.

use crate::ast::{BinaryOp, Expr, ExprKind, Literal};
use crate::cut::{is_offered, pushed, QueryView};
use crate::diag::{error_view, Span};
use crate::ir::{
    BlockId, ConstView, HeadingId, InstView, ProcTypeView, ScalarOp, TerminatorView, ValueId,
};
use crate::layout::record_bytes;
use crate::literals::{char_value, integer_value, string_value};
use crate::lower::kinds::{loaded_type, proc_of_type, type_of_proc};
use crate::lower::relational::{
    built, compose_names, has_restrict, root_name, scalars_of, substituted,
};
use crate::lower::state::{
    find_in, is_heap, name_index, put_in, Bound, ChunkView, RequestView, State, StopView,
    WritePolicy,
};
use crate::rel_expr::{PredicateView, RelView, StorageOrigin};
use crate::text::{before, Name};
use crate::types::{attr_names, headings_agree, lookup_attr, HeadingView};
use vstd::prelude::*;
use vstd::utf8::encode_utf8;

verus! {

/// Variables with their values.
pub type Vars = Seq<(Name, Bound)>;

/// An expression evaluated by the database, when it can be.
#[verifier::opaque]
pub open spec fn attempted(st: State, e: Expr) -> (State, Option<ValueId>) {
    if st.env.pushes {
        match built(st, e) {
            Some(rel) => {
                let (st, answer) = offered(st, rel);
                match answer {
                    Some(q) => {
                        let (st, v) = st.query(q);
                        (st.explain(rel, q.text), Some(v))
                    },
                    None => (st, None),
                }
            },
            None => (st, None),
        }
    } else {
        (st, None)
    }
}

/// The statement that pushes an expression. One over in-process relations alone
/// is not asked about.
#[verifier::opaque]
pub open spec fn offered(st: State, rel: RelView) -> (State, Option<QueryView>) {
    if is_offered(rel) {
        let (st, answer) = st.ask(RequestView::Select(rel));
        (
            st,
            match pushed(rel, answer, None) {
                Some(plan) => Some(plan.query),
                None => None,
            },
        )
    } else {
        (st, None)
    }
}

/// Stopped when the operand is all rows of a public relvar.
#[verifier::opaque]
pub open spec fn operand_guarded(st: State, operand: Expr) -> State {
    match built(st, operand) {
        Some(rel) => if rel.origin() == StorageOrigin::RelvarRooted && !has_restrict(rel) {
            st.halted(
                StopView::FullRelvarPull(
                    match root_name(rel) {
                        Some(name) => name,
                        None => "?"@,
                    },
                ),
            )
        } else {
            st
        },
        None => st,
    }
}

/// Stopped when a relational operator evaluated in-process has all rows of a
/// public relvar as an operand.
#[verifier::opaque]
pub open spec fn guarded(st: State, e: Expr) -> State {
    match e.kind {
        ExprKind::Binary { op, lhs, rhs } => match op {
            BinaryOp::Where => operand_guarded(st, *lhs),
            BinaryOp::Join
            | BinaryOp::Times
            | BinaryOp::Intersect
            | BinaryOp::Compose
            | BinaryOp::Union
            | BinaryOp::Minus => operand_guarded(operand_guarded(st, *lhs), *rhs),
            _ => st,
        },
        ExprKind::Project { input, .. } => operand_guarded(st, *input),
        ExprKind::Replace { input, .. } => operand_guarded(st, *input),
        ExprKind::Rename { input, .. } => operand_guarded(st, *input),
        ExprKind::Wrap { input, .. } => operand_guarded(st, *input),
        ExprKind::Unwrap { input, .. } => operand_guarded(st, *input),
        ExprKind::Extend { input, .. } => operand_guarded(st, *input),
        ExprKind::Tclose { input, .. } => operand_guarded(st, *input),
        _ => st,
    }
}

/// A literal.
#[verifier::opaque]
pub open spec fn literal_lowered(st: State, l: Literal) -> (State, ValueId) {
    match l {
        Literal::Str(text) => match string_value(text@) {
            Some(s) => st.constant(ConstView::Text(encode_utf8(s)), ProcTypeView::Text),
            None => st.unlowered(),
        },
        Literal::Integer(text) => match integer_value(text@) {
            Some(n) => st.constant(ConstView::Integer(n), ProcTypeView::Integer),
            None => st.unlowered(),
        },
        Literal::Char(text) => match char_value(text@) {
            Some(c) => st.constant(ConstView::Character(c), ProcTypeView::Character),
            None => st.unlowered(),
        },
        Literal::Format(_) => st.unlowered(),
        Literal::Other(_) => st.unlowered(),
    }
}

/// The message about a name that a helper function cannot reach.
pub open spec fn capture_message(name: Name) -> Seq<char> {
    "identifier `"@ + name
        + "` is captured from an outer scope; `where`-predicate captures are not yet supported"@
}

/// A name: its binding, a public relvar, or a private one.
#[verifier::opaque]
pub open spec fn name_lowered(st: State, span: Span, name: Name) -> (State, ValueId) {
    match st.local(name) {
        Some(b) => (st, b.0),
        None => match st.public(name) {
            Some(p) => st.use_legacy(p.0.name).read_slot(p.0.name, p.0.heading_id),
            None => match st.private(name) {
                Some(id) => st.use_private(name).read_slot(name, id),
                None => if st.is_captured(name) {
                    st.diagnose(error_view(span, "T0022"@, capture_message(name))).define(
                        ProcTypeView::Unit,
                    )
                } else {
                    st.define(ProcTypeView::Unit)
                },
            },
        },
    }
}

/// The scalar operator of a binary one.
pub open spec fn operator_of(op: BinaryOp) -> Option<ScalarOp> {
    match op {
        BinaryOp::Eq => Some(ScalarOp::Eq),
        BinaryOp::NotEq => Some(ScalarOp::NotEq),
        BinaryOp::Lt => Some(ScalarOp::Lt),
        BinaryOp::Gt => Some(ScalarOp::Gt),
        BinaryOp::LtEq => Some(ScalarOp::LtEq),
        BinaryOp::GtEq => Some(ScalarOp::GtEq),
        BinaryOp::And => Some(ScalarOp::And),
        BinaryOp::Or => Some(ScalarOp::Or),
        BinaryOp::Add => Some(ScalarOp::Add),
        BinaryOp::Sub => Some(ScalarOp::Sub),
        BinaryOp::Mul => Some(ScalarOp::Mul),
        BinaryOp::Div => Some(ScalarOp::Div),
        BinaryOp::Concat => Some(ScalarOp::Concat),
        _ => None,
    }
}

/// Whether the operator computes an integer from two.
pub open spec fn is_arithmetic(op: ScalarOp) -> bool {
    op == ScalarOp::Add || op == ScalarOp::Sub || op == ScalarOp::Mul || op == ScalarOp::Div
}

/// A scalar operator on two lowered operands.
#[verifier::opaque]
pub open spec fn scalar_applied(st: State, op: ScalarOp, lhs: ValueId, rhs: ValueId) -> (
    State,
    ValueId,
) {
    if op == ScalarOp::Concat {
        let (st, l) = st.coerce_to_text(lhs);
        let (st, r) = st.coerce_to_text(rhs);
        st.concat(l, r)
    } else {
        let (operand_type, result) = if is_arithmetic(op) {
            (ProcTypeView::Integer, ProcTypeView::Integer)
        } else {
            (st.type_of(lhs), ProcTypeView::Boolean)
        };
        let (st, dst) = st.define(result);
        let st = st.emit(InstView::ScalarOp { dst, op, operand_type, lhs, rhs });
        (st.release_temp(lhs).release_temp(rhs), dst)
    }
}

/// A relational expression over private relvars evaluated in-process; none for
/// a form that is not evaluated this way.
#[verifier::opaque]
pub open spec fn in_process(st: State, rel: RelView) -> (State, Option<ValueId>)
    decreases rel,
{
    match rel {
        RelView::MaterializedRelvar { name, .. } => match st.private(name) {
            Some(id) => {
                let (st, v) = st.use_private(name).read_slot(name, id);
                (st, Some(v))
            },
            None => (st, None),
        },
        RelView::And { lhs, rhs } => {
            let (st, l) = in_process(st, *lhs);
            match l {
                Some(l) => {
                    let (st, r) = in_process(st, *rhs);
                    match r {
                        Some(r) => {
                            let (st, v) = st.join(l, r);
                            (st, Some(v))
                        },
                        None => (st, None),
                    }
                },
                None => (st, None),
            }
        },
        RelView::Or { lhs, rhs } => {
            let (st, l) = in_process(st, *lhs);
            match l {
                Some(l) => {
                    let (st, r) = in_process(st, *rhs);
                    match r {
                        Some(r) => {
                            let (st, v) = st.unite(l, r);
                            (st, Some(v))
                        },
                        None => (st, None),
                    }
                },
                None => (st, None),
            }
        },
        RelView::Minus { lhs, rhs } => {
            let (st, l) = in_process(st, *lhs);
            match l {
                Some(l) => {
                    let (st, r) = in_process(st, *rhs);
                    match r {
                        Some(r) => {
                            let (st, v) = st.subtract(l, r);
                            (st, Some(v))
                        },
                        None => (st, None),
                    }
                },
                None => (st, None),
            }
        },
        RelView::Project { input, keep } => {
            let (st, src) = in_process(st, *input);
            match src {
                Some(src) => {
                    let (st, v) = st.project(src, keep, false);
                    (st, Some(v))
                },
                None => (st, None),
            }
        },
        RelView::TClose { input } => {
            let (st, src) = in_process(st, *input);
            match src {
                Some(src) => {
                    let (st, v) = st.close(src);
                    (st, Some(v))
                },
                None => (st, None),
            }
        },
        RelView::Wrap { input, .. } => {
            let (st, src) = in_process(st, *input);
            restructured(st, src, rel)
        },
        RelView::Unwrap { input, .. } => {
            let (st, src) = in_process(st, *input);
            restructured(st, src, rel)
        },
        _ => (st, None),
    }
}

/// A lowered operand in the nesting of the expression's heading.
#[verifier::opaque]
pub open spec fn restructured(st: State, src: Option<ValueId>, rel: RelView) -> (
    State,
    Option<ValueId>,
) {
    match src {
        Some(src) => if rel.has_heading() {
            let (st, v) = st.restructure(src, rel.heading());
            (st, Some(v))
        } else {
            (st, None)
        },
        None => (st, None),
    }
}

/// A relational operator on two lowered operands.
#[verifier::opaque]
pub open spec fn combined_values(st: State, op: BinaryOp, lhs: ValueId, rhs: ValueId) -> (
    State,
    ValueId,
) {
    if op == BinaryOp::Union {
        st.unite(lhs, rhs)
    } else if op == BinaryOp::Minus {
        st.subtract(lhs, rhs)
    } else {
        let (st, joined) = st.join(lhs, rhs);
        if op == BinaryOp::Compose {
            match (st.relation_id(lhs), st.relation_id(rhs)) {
                (Some(l), Some(r)) => if headings_agree(st.heading_at(l), st.heading_at(r)) {
                    st.project(joined, compose_names(st.heading_at(l), st.heading_at(r)), false)
                } else {
                    st.unlowered()
                },
                _ => st.unlowered(),
            }
        } else {
            (st, joined)
        }
    }
}

/// A field of a tuple value.
#[verifier::opaque]
pub open spec fn field_read(st: State, src: ValueId, field: Name) -> (State, ValueId) {
    match st.type_of(src) {
        ProcTypeView::Tuple(h) => match lookup_attr(h, field) {
            Some(t) => match proc_of_type(t) {
                Some(ty) => {
                    let (st, dst) = st.define(ty);
                    (
                        st.emit(
                            InstView::TupleField { dst, src, field_name: field, field_type: ty },
                        ),
                        dst,
                    )
                },
                None => st.unlowered(),
            },
            None => st.unlowered(),
        },
        _ => st.unlowered(),
    }
}

/// The only tuple of a relation. The relation is released when the function
/// ends, since the tuple's texts stay its own.
#[verifier::opaque]
pub open spec fn extracted(st: State, src: ValueId) -> (State, ValueId) {
    match st.relation_id(src) {
        Some(id) => {
            let (st, dst) = st.define(ProcTypeView::Tuple(st.heading_at(id)));
            let st = st.emit(InstView::Extract { dst, src, heading_id: id });
            if st.is_bound(src) {
                (st, dst)
            } else {
                (st.defer(src), dst)
            }
        },
        None => st.unlowered(),
    }
}

/// A relation printed.
#[verifier::opaque]
pub open spec fn printed(st: State, rel: ValueId) -> (State, ValueId) {
    match st.relation_id(rel) {
        Some(id) => st.emit(InstView::WriteRelation { rel, heading_id: id }).define(
            ProcTypeView::Unit,
        ),
        None => st.unlowered(),
    }
}

/// A call of a function with its lowered arguments; where `borrows`, texts
/// among them that nothing else releases are released.
#[verifier::opaque]
pub open spec fn called(
    st: State,
    callee: Name,
    args: Seq<ValueId>,
    return_type: ProcTypeView,
    borrows: bool,
) -> (State, ValueId) {
    if return_type is Unit {
        let texts = text_values(st, args);
        let st = st.emit(InstView::Call { dst: None, callee, args, return_type });
        let st = if borrows {
            st.release_temps(texts)
        } else {
            st
        };
        st.define(ProcTypeView::Unit)
    } else {
        let (st, dst) = st.define(return_type);
        let texts = text_values(st, args);
        let st = st.emit(InstView::Call { dst: Some(dst), callee, args, return_type });
        let st = if return_type is Text {
            st.own(dst)
        } else {
            st
        };
        if borrows {
            (st.release_temps(texts), dst)
        } else {
            (st, dst)
        }
    }
}

/// The values that are texts.
pub open spec fn text_values(st: State, vs: Seq<ValueId>) -> Seq<ValueId> {
    vs.filter(|v: ValueId| st.type_of(v) is Text)
}

/// A built-in function: its symbol, its parameters and its return type.
pub open spec fn builtin(name: Name) -> Option<(Name, Seq<(Name, ProcTypeView)>, ProcTypeView)> {
    if name == "write_line"@ {
        Some(("coddl_write_line"@, seq![("message"@, ProcTypeView::Text)], ProcTypeView::Unit))
    } else if name == "read_line"@ {
        Some(("coddl_read_line"@, seq![("prompt"@, ProcTypeView::Text)], ProcTypeView::Text))
    } else if name == "cardinality"@ {
        Some(
            (
                "coddl_rc_length"@,
                seq![("self"@, ProcTypeView::Relation(HeadingId(0)))],
                ProcTypeView::Integer,
            ),
        )
    } else {
        None
    }
}

/// The names of parameters.
pub open spec fn param_names(params: Seq<(Name, ProcTypeView)>) -> Seq<Name> {
    Seq::new(params.len(), |i: int| params[i].0)
}

/// Whether a piece of the template takes an argument.
pub open spec fn has_placeholder(chunks: Seq<ChunkView>) -> bool {
    exists|i: int| 0 <= i < chunks.len() && (#[trigger] chunks[i]) is Placeholder
}

/// The first `n` pieces of a template as texts, with the arguments' tuple.
pub open spec fn pieces_first(
    st: State,
    chunks: Seq<ChunkView>,
    n: nat,
    args: Option<ValueId>,
) -> (State, Seq<ValueId>)
    decreases n,
{
    if n == 0 {
        (st, Seq::empty())
    } else {
        let (before, vs) = pieces_first(st, chunks, (n - 1) as nat, args);
        match chunks[n - 1] {
            ChunkView::Literal(bytes) => {
                let (after, v) = before.text_const(bytes);
                (after, vs.push(v))
            },
            ChunkView::Placeholder(name) => match args {
                Some(tuple) => {
                    let (mid, field) = field_read(before, tuple, name);
                    let (after, v) = mid.to_text(field);
                    (after, vs.push(v))
                },
                None => (before.halted(StopView::NotLowered), vs),
            },
        }
    }
}

/// The first `n` texts one behind the other.
pub open spec fn joined_first(st: State, pieces: Seq<ValueId>, n: nat) -> (State, ValueId)
    decreases n,
{
    if n <= 1 {
        (st, pieces[0])
    } else {
        let (before, acc) = joined_first(st, pieces, (n - 1) as nat);
        before.concat(acc, pieces[n - 1])
    }
}

/// The texts one behind the other; the empty text when there are none.
#[verifier::opaque]
pub open spec fn joined_texts(st: State, pieces: Seq<ValueId>) -> (State, ValueId) {
    if pieces.len() == 0 {
        st.text_const(Seq::empty())
    } else {
        joined_first(st, pieces, pieces.len())
    }
}

/// The texts stored into a tuple released that nothing else releases.
#[verifier::opaque]
pub open spec fn release_cells(st: State, tuple: ValueId) -> State {
    st.drop_temps(tuple).release_temps(st.temps(tuple))
}

/// A template's pieces joined, with the arguments' tuple.
#[verifier::opaque]
pub open spec fn formatted(st: State, chunks: Seq<ChunkView>, args: Option<ValueId>) -> (
    State,
    ValueId,
) {
    let (st, pieces) = pieces_first(st, chunks, chunks.len(), args);
    let (st, text) = joined_texts(st, pieces);
    match args {
        Some(tuple) => (release_cells(st, tuple), text),
        None => (st, text),
    }
}

/// `s` with `f` put behind every field that does not come after it.
pub open spec fn insert_field(s: Seq<(Name, ValueId)>, f: (Name, ValueId)) -> Seq<(Name, ValueId)>
    decreases s.len(),
{
    if s.len() > 0 && before(f.0, s.last().0) {
        insert_field(s.drop_last(), f).push(s.last())
    } else {
        s.push(f)
    }
}

/// The first `n` fields in name order.
pub open spec fn sorted_first(fields: Vars, n: nat) -> Seq<(Name, ValueId)>
    decreases n,
{
    if n == 0 {
        Seq::empty()
    } else {
        insert_field(sorted_first(fields, (n - 1) as nat), (fields[n - 1].0, fields[n - 1].1.0))
    }
}

/// The attributes of the first `n` fields; none when one has no surface type.
pub open spec fn attrs_first(fields: Vars, n: nat) -> Option<HeadingView>
    decreases n,
{
    if n == 0 {
        Some(Seq::empty())
    } else {
        match (attrs_first(fields, (n - 1) as nat), type_of_proc(fields[n - 1].1.1)) {
            (Some(h), Some(t)) => Some(h.push((fields[n - 1].0, t))),
            _ => None,
        }
    }
}

/// A tuple of lowered fields, with the texts that were stored into it.
#[verifier::opaque]
pub open spec fn tuple_made(st: State, fields: Vars, temps: Seq<ValueId>) -> (State, ValueId) {
    match attrs_first(fields, fields.len()) {
        Some(attrs) => {
            let heading = crate::types::canonical(attrs);
            let (st, dst) = st.define(ProcTypeView::Tuple(heading));
            let st = st.emit(
                InstView::TupleLit { dst, fields: sorted_first(fields, fields.len()), heading },
            );
            if temps.len() > 0 {
                (st.set_temps(dst, temps), dst)
            } else {
                (st, dst)
            }
        },
        None => st.unlowered(),
    }
}

/// The texts of the first `n` tuples, which are forgotten.
pub open spec fn temps_first(st: State, tuples: Seq<ValueId>, n: nat) -> (State, Seq<ValueId>)
    decreases n,
{
    if n == 0 {
        (st, Seq::empty())
    } else {
        let (before, vs) = temps_first(st, tuples, (n - 1) as nat);
        (before.drop_temps(tuples[n - 1]), vs + before.temps(tuples[n - 1]))
    }
}

/// A relation of lowered tuples.
#[verifier::opaque]
pub open spec fn relation_made(st: State, tuples: Seq<ValueId>) -> (State, ValueId) {
    match st.type_of(tuples[0]) {
        ProcTypeView::Tuple(h) => {
            let (st, heading_id) = st.intern(h);
            let (st, dst) = st.define(ProcTypeView::Relation(heading_id));
            let (st, temps) = temps_first(st, tuples, tuples.len());
            let st = st.emit(InstView::RelationLit { dst, tuples, heading_id });
            (st.release_temps(temps), dst)
        },
        _ => st.unlowered(),
    }
}

/// A sequence of lowered elements.
#[verifier::opaque]
pub open spec fn sequence_made(st: State, elements: Seq<ValueId>) -> (State, ValueId) {
    let ty = st.type_of(elements[0]);
    match type_of_proc(ty) {
        Some(t) => {
            let (st, heading_id) = st.intern(crate::types::canonical(seq![("value"@, t)]));
            let (st, dst) = st.define(ProcTypeView::Sequence(Box::new(ty)));
            let st = st.emit(InstView::SequenceLit { dst, elements, heading_id });
            (st.release_temps(elements), dst)
        },
        None => st.unlowered(),
    }
}

/// The first `n` cells of a helper's record, loaded and bound.
pub open spec fn loads_first(st: State, record: ValueId, h: HeadingView, n: nat) -> (State, Vars)
    decreases n,
{
    if n == 0 {
        (st, Seq::empty())
    } else {
        let (before, cells) = loads_first(st, record, h, (n - 1) as nat);
        match loaded_type(h[n - 1].1) {
            Some(ty) => {
                let (mid, dst) = before.define(ty);
                let mid = mid.emit(
                    InstView::AttrLoad {
                        dst,
                        src: record,
                        offset: record_bytes(h.take(n - 1))->0 as u32,
                        attr_type: ty,
                    },
                );
                (mid.bind(h[n - 1].0, dst, ty), put_in(cells, h[n - 1].0, (dst, ty)))
            },
            None => (before.halted(StopView::NotLowered), cells),
        }
    }
}

/// The first `n` cells of an extension's record, stored.
pub open spec fn stores_first(
    st: State,
    record: ValueId,
    h: HeadingView,
    cells: Vars,
    n: nat,
) -> State
    decreases n,
{
    if n == 0 {
        st
    } else {
        let before = stores_first(st, record, h, cells, (n - 1) as nat);
        match find_in(cells, h[n - 1].0) {
            Some(b) => before.emit(
                InstView::AttrStore {
                    record,
                    offset: record_bytes(h.take(n - 1))->0 as u32,
                    value: b.0,
                    attr_type: b.1,
                },
            ).release_temp(b.0),
            None => before.halted(StopView::NotLowered),
        }
    }
}

/// The first `n` new values put among the cells.
pub open spec fn cells_with(cells: Vars, names: Seq<Name>, values: Seq<Bound>, n: nat) -> Vars
    decreases n,
{
    if n == 0 {
        cells
    } else {
        put_in(cells_with(cells, names, values, (n - 1) as nat), names[n - 1], values[n - 1])
    }
}

/// The first `n` new values' attributes behind those of the operand; none when
/// one has no surface type.
pub open spec fn widened(h: HeadingView, names: Seq<Name>, values: Seq<Bound>, n: nat) -> Option<
    HeadingView,
>
    decreases n,
{
    if n == 0 {
        Some(h)
    } else {
        match (widened(h, names, values, (n - 1) as nat), type_of_proc(values[n - 1].1)) {
            (Some(attrs), Some(t)) => Some(attrs.push((names[n - 1], t))),
            _ => None,
        }
    }
}

/// The message about a variable that changes across a join of control flow.
pub open spec fn carried_message(name: Name) -> Seq<char> {
    "reassigning the heap-typed variable `"@ + name
        + "` across a loop or `if` is not yet lowered"@
}

/// The message about a variable that both branches give its first value.
pub open spec fn introduced_message(name: Name) -> Seq<char> {
    "initializing the heap-typed variable `"@ + name
        + "` on both branches of an `if` is not yet lowered"@
}

/// Whether a variable of the type cannot change across a join of control flow.
pub open spec fn is_pinned(ty: ProcTypeView) -> bool {
    is_heap(ty) || ty is Text
}

/// Of the first `n` names, the variables that a join of control flow carries.
pub open spec fn carried_first(st: State, names: Seq<Name>, n: nat, span: Span) -> (State, Vars)
    decreases n,
{
    if n == 0 {
        (st, Seq::empty())
    } else {
        let (before, vars) = carried_first(st, names, (n - 1) as nat, span);
        let name = names[n - 1];
        match before.local(name) {
            Some(b) => if is_pinned(b.1) {
                (before.diagnose(error_view(span, "T0076"@, carried_message(name))), vars)
            } else {
                (before, vars.push((name, b)))
            },
            None => (before, vars),
        }
    }
}

/// Of the first `n` names, the variables that both branches give a value.
pub open spec fn introduced_first(st: State, names: Seq<Name>, n: nat, span: Span) -> (State, Vars)
    decreases n,
{
    if n == 0 {
        (st, Seq::empty())
    } else {
        let (before, vars) = introduced_first(st, names, (n - 1) as nat, span);
        let name = names[n - 1];
        match before.local(name) {
            Some(b) => if is_pinned(b.1) {
                (before.diagnose(error_view(span, "T0076"@, introduced_message(name))), vars)
            } else {
                (before, vars.push((name, b)))
            },
            None => (before, vars),
        }
    }
}

/// The names that both lists hold and that have no value yet, each once.
pub open spec fn introduced_names(st: State, ours: Seq<Name>, theirs: Seq<Name>) -> Seq<Name> {
    crate::rel_analysis::add_each(Seq::empty(), ours).filter(
        |n: Name| theirs.contains(n) && st.is_pending(n),
    )
}

/// The current values of variables.
pub open spec fn current_values(st: State, vars: Vars) -> Seq<ValueId> {
    Seq::new(
        vars.len(),
        |i: int|
            match st.local(vars[i].0) {
                Some(b) => b.0,
                None => ValueId(0),
            },
    )
}

/// The values that variables came with.
pub open spec fn prior_values(vars: Vars) -> Seq<ValueId> {
    Seq::new(vars.len(), |i: int| vars[i].1.0)
}

/// The typed values that variables came with.
pub open spec fn var_params(vars: Vars) -> Seq<(ValueId, ProcTypeView)> {
    Seq::new(vars.len(), |i: int| vars[i].1)
}

/// A new value for each of the first `n` variables.
pub open spec fn fresh_first(st: State, vars: Vars, n: nat) -> (State, Vars)
    decreases n,
{
    if n == 0 {
        (st, Seq::empty())
    } else {
        let (before, out) = fresh_first(st, vars, (n - 1) as nat);
        let (after, p) = before.define(vars[n - 1].1.1);
        (after, out.push((vars[n - 1].0, (p, vars[n - 1].1.1))))
    }
}

/// The first `n` variables pointed at the values they came with.
pub open spec fn rebound_first(st: State, vars: Vars, n: nat) -> State
    decreases n,
{
    if n == 0 {
        st
    } else {
        rebound_first(st, vars, (n - 1) as nat).rebind(
            vars[n - 1].0,
            vars[n - 1].1.0,
            vars[n - 1].1.1,
        )
    }
}

/// The variables pointed at the values they came with.
#[verifier::opaque]
pub open spec fn rebound(st: State, vars: Vars) -> State {
    rebound_first(st, vars, vars.len())
}

/// The variables with other values.
pub open spec fn with_values(vars: Vars, values: Seq<ValueId>) -> Vars {
    Seq::new(vars.len(), |i: int| (vars[i].0, (values[i], vars[i].1.1)))
}

/// A new value taken over by a name: retained when it was another name's.
#[verifier::opaque]
pub open spec fn taken_over(st: State, v: ValueId, ty: ProcTypeView, from_name: bool) -> State {
    if from_name && is_pinned(ty) {
        let st = st.emit(InstView::Retain { src: v });
        if ty is Text {
            st.own(v)
        } else {
            st
        }
    } else {
        st
    }
}

/// A value moved into a private relvar's slot.
#[verifier::opaque]
pub open spec fn stored(st: State, name: Name, value: ValueId) -> State {
    st.use_private(name).emit(InstView::RelvarSlotStore { name, value })
}

/// The message about a relvar that maps to a view.
pub open spec fn view_message(name: Name) -> Seq<char> {
    "cannot assign to public relvar `"@ + name + "`: it maps to a non-writable view"@
}

/// The message about a database without modifications.
pub open spec fn backend_message(name: Name) -> Seq<char> {
    "cannot assign to public relvar `"@ + name + "`: backend does not support SQL writes"@
}

/// Whether a public relvar can be written to; a diagnostic when not.
#[verifier::opaque]
pub open spec fn write_allowed(st: State, name: Name, span: Span) -> (State, bool) {
    match st.public(name) {
        Some(p) => if p.1 != WritePolicy::ReadWrite {
            (st.diagnose(error_view(span, "T0050"@, view_message(name))), false)
        } else if st.env.pushes {
            (st, true)
        } else {
            (st.diagnose(error_view(span, "T0049"@, backend_message(name))), false)
        },
        None => (st.diagnose(error_view(span, "T0050"@, view_message(name))), false),
    }
}

/// The one statement that gives the target the value, run when there is one.
#[verifier::opaque]
pub open spec fn assigned_by_statement(st: State, target: RelView, value: RelView) -> (
    State,
    bool,
) {
    let (st, answer) = st.ask(RequestView::Assign { target, value });
    match answer {
        Some(q) => (st.dml(q), true),
        None => (st, false),
    }
}

/// The message about a deletion that no statement does.
pub open spec fn delete_message(name: Name) -> Seq<char> {
    "cannot delete from public relvar `"@ + name
        + "`: predicate is not a recognized surgical shape"@
}

/// The message about an update that no statement does.
pub open spec fn update_message(name: Name) -> Seq<char> {
    "cannot update public relvar `"@ + name + "`: not a recognized surgical shape"@
}

/// The message about an assignment that reads its target.
pub open spec fn self_message(name: Name) -> Seq<char> {
    "assignment to public relvar `"@ + name
        + "` is self-referential but not a recognized surgical shape"@
}

/// The message about an assignment that has no form of write.
pub open spec fn shape_message(name: Name) -> Seq<char> {
    "assignment to public relvar `"@ + name + "` is not a supported write shape"@
}

/// An update that no statement does.
#[verifier::opaque]
pub open spec fn update_declined(st: State, name: Name, span: Span) -> State {
    st.diagnose(error_view(span, "T0049"@, update_message(name)))
}

/// The same test with the opposite outcome, under a restriction.
pub open spec fn complement(rel: RelView) -> Option<RelView> {
    match rel {
        RelView::Restrict { input, pred } => match pred {
            PredicateView::AttrCmp { attr, op, value } => Some(
                RelView::Restrict {
                    input,
                    pred: PredicateView::AttrCmp { attr, op: op.negated(), value },
                },
            ),
            PredicateView::Gate(_) => None,
        },
        _ => None,
    }
}

/// The value of an updated relvar: the rows outside the condition, and those
/// inside with attributes overwritten.
pub open spec fn updated_rel(
    target: RelView,
    restrict: Option<RelView>,
    pairs: Seq<(String, Expr)>,
    removed: Seq<Name>,
) -> Option<RelView> {
    let input = match restrict {
        Some(r) => r,
        None => target,
    };
    if input.has_heading() {
        match scalars_of(pairs, pairs.len(), input.heading()) {
            Some(extends) => {
                let sub = substituted(input, extends, removed);
                match restrict {
                    Some(r) => match complement(r) {
                        Some(c) => Some(RelView::Or { lhs: Box::new(c), rhs: Box::new(sub) }),
                        None => None,
                    },
                    None => Some(sub),
                }
            },
            None => None,
        }
    } else {
        None
    }
}

/// A public relvar updated; `operand` is the relvar or its restriction.
#[verifier::opaque]
pub open spec fn public_updated(
    st: State,
    name: Name,
    root: Expr,
    operand: Expr,
    has_where: bool,
    pairs: Seq<(String, Expr)>,
    removed: Seq<Name>,
) -> State {
    let (st, allowed) = write_allowed(st, name, root.span);
    if !allowed {
        st
    } else {
        match built(st, root) {
            Some(target) => {
                let restrict = built(st, operand);
                let value = if has_where {
                    match restrict {
                        Some(r) => updated_rel(target, Some(r), pairs, removed),
                        None => None,
                    }
                } else {
                    updated_rel(target, None, pairs, removed)
                };
                match value {
                    Some(value) => {
                        let (st, done) = assigned_by_statement(st, target, value);
                        if done {
                            st
                        } else {
                            update_declined(st, name, operand.span)
                        }
                    },
                    None => update_declined(st, name, operand.span),
                }
            },
            None => st,
        }
    }
}

/// The key of an order: an attribute's place, with the top bit for descending.
pub open spec fn order_key(place: u32, descending: bool) -> u32 {
    if descending {
        place | 0x8000_0000
    } else {
        place
    }
}

/// The keys of the first `n` attributes of an order that the heading has.
pub open spec fn order_keys(h: HeadingView, order: Seq<(String, bool)>, n: nat) -> Seq<u32>
    decreases n,
{
    if n == 0 {
        Seq::empty()
    } else {
        let before = order_keys(h, order, (n - 1) as nat);
        let i = name_index(attr_names(h), order[n - 1].0@);
        if i < h.len() {
            before.push(order_key(i as u32, order[n - 1].1))
        } else {
            before
        }
    }
}

/// A lowered relation put in order, as the first value of a variable.
#[verifier::opaque]
pub open spec fn loaded(st: State, target: Name, rel: ValueId, order: Seq<(String, bool)>) -> State {
    match st.relation_id(rel) {
        Some(id) => {
            let h = st.heading_at(id);
            let ty = ProcTypeView::Sequence(Box::new(ProcTypeView::Tuple(h)));
            let (st, dst) = st.define(ty);
            let st = st.emit(
                InstView::Load {
                    dst,
                    src: rel,
                    heading_id: id,
                    keys: order_keys(h, order, order.len()),
                },
            );
            st.release_unbound(rel).bind_pending(target, dst, ty)
        },
        None => st.halted(StopView::NotLowered),
    }
}

/// The lowered rows of a relation shipped by a plan; whether they were.
#[verifier::opaque]
pub open spec fn rows_shipped(st: State, plan_id: u32, src: ValueId) -> (State, bool) {
    match st.relation_id(src) {
        Some(id) => (
            st.emit(InstView::InsertFrom { plan_id, src, heading_id: id }).release_unbound(src),
            true,
        ),
        None => (st, false),
    }
}

/// What a counted loop gives its variable in each round.
pub enum LoopVar {
    /// The counter.
    Counter(Name),
    /// The element of a sequence that the counter counts to.
    Element { seq: ValueId, ty: ProcTypeView, name: Name },
}

/// The loop's variable bound.
#[verifier::opaque]
pub open spec fn loop_var_bound(st: State, var: LoopVar, counter: ValueId) -> State {
    match var {
        LoopVar::Counter(name) => st.bind(name, counter, ProcTypeView::Integer),
        LoopVar::Element { seq, ty, name } => {
            let (st, v) = st.element(seq, counter, ty);
            st.bind(name, v, ty)
        },
    }
}

/// The part of a counted loop before its body: the counter tested in a block
/// that the body comes back to.
#[verifier::opaque]
pub open spec fn loop_opened(
    st: State,
    lo: ValueId,
    hi: ValueId,
    carried: Vars,
    header: BlockId,
    body: BlockId,
    exit: BlockId,
) -> (State, ValueId, Vars) {
    let st = st.finish_block(
        TerminatorView::Br { target: header, args: seq![lo] + prior_values(carried) },
    );
    let (st, counter) = st.define(ProcTypeView::Integer);
    let (st, params) = fresh_first(st, carried, carried.len());
    let st = st.start_block(
        header,
        seq![(counter, ProcTypeView::Integer)] + var_params(params),
    );
    let st = rebound(st, params);
    let (st, test) = st.define(ProcTypeView::Boolean);
    let st = st.emit(
        InstView::ScalarOp {
            dst: test,
            op: ScalarOp::LtEq,
            operand_type: ProcTypeView::Integer,
            lhs: counter,
            rhs: hi,
        },
    );
    let st = st.finish_block(
        TerminatorView::CondBr { cond: test, then_block: body, else_block: exit },
    );
    (st.start_block(body, Seq::empty()), counter, params)
}

/// The part of a counted loop after its body: the counter raised, and the way
/// back.
#[verifier::opaque]
pub open spec fn loop_closed(
    st: State,
    counter: ValueId,
    carried: Vars,
    params: Vars,
    header: BlockId,
    exit: BlockId,
) -> State {
    let (st, one) = st.constant(ConstView::Integer(1), ProcTypeView::Integer);
    let (st, next) = st.define(ProcTypeView::Integer);
    let st = st.emit(
        InstView::ScalarOp {
            dst: next,
            op: ScalarOp::Add,
            operand_type: ProcTypeView::Integer,
            lhs: counter,
            rhs: one,
        },
    );
    let st = st.finish_block(
        TerminatorView::Br { target: header, args: seq![next] + current_values(st, carried) },
    );
    rebound(st.start_block(exit, Seq::empty()), params)
}

/// The bounds of a loop over a sequence: zero and its length less one.
#[verifier::opaque]
pub open spec fn sequence_bounds(st: State, seq: ValueId) -> (State, ValueId, ValueId) {
    let st = st.declare(
        "cardinality"@,
        "coddl_rc_length"@,
        seq![("self"@, ProcTypeView::Relation(HeadingId(0)))],
        ProcTypeView::Integer,
    );
    let (st, length) = st.define(ProcTypeView::Integer);
    let st = st.emit(
        InstView::Call {
            dst: Some(length),
            callee: "coddl_rc_length"@,
            args: seq![seq],
            return_type: ProcTypeView::Integer,
        },
    );
    let (st, one) = st.constant(ConstView::Integer(1), ProcTypeView::Integer);
    let (st, hi) = st.define(ProcTypeView::Integer);
    let st = st.emit(
        InstView::ScalarOp {
            dst: hi,
            op: ScalarOp::Sub,
            operand_type: ProcTypeView::Integer,
            lhs: length,
            rhs: one,
        },
    );
    let (st, lo) = st.constant(ConstView::Integer(0), ProcTypeView::Integer);
    (st, lo, hi)
}

/// A sequence held for a loop: retained when it was another name's.
#[verifier::opaque]
pub open spec fn sequence_held(st: State, seq: ValueId, from_name: bool) -> State {
    let ty = st.type_of(seq);
    let st = if from_name && is_heap(ty) {
        st.emit(InstView::Retain { src: seq })
    } else {
        st
    };
    st.bind("__seq"@, seq, ty)
}

/// The type of a sequence's elements.
pub open spec fn element_type(ty: ProcTypeView) -> ProcTypeView {
    match ty {
        ProcTypeView::Sequence(elem) => *elem,
        _ => ProcTypeView::Unit,
    }
}

/// The attributes that an expression reads, as far as it is made of names and
/// operators.
pub open spec fn expr_refs(e: Expr) -> Seq<Name>
    decreases e,
{
    match e.kind {
        ExprKind::NameRef(name) => seq![name@],
        ExprKind::Binary { lhs, rhs, .. } => expr_refs(*lhs) + expr_refs(*rhs),
        ExprKind::Extract { operand } => expr_refs(*operand),
        _ => Seq::empty(),
    }
}

/// The attributes that the first `n` values read.
pub open spec fn pairs_refs(pairs: Seq<(String, Expr)>, n: nat) -> Seq<Name>
    decreases n,
{
    if n == 0 {
        Seq::empty()
    } else {
        pairs_refs(pairs, (n - 1) as nat) + expr_refs(pairs[n - 1].1)
    }
}

/// The attributes of the heading that the values read.
pub open spec fn consumed_refs(pairs: Seq<(String, Expr)>, h: HeadingView) -> Seq<Name> {
    pairs_refs(pairs, pairs.len()).filter(|n: Name| lookup_attr(h, n) is Some)
}

} // verus!
