//! The instruction patterns keep the state well formed.

use crate::cut::{ParamView, QueryView};
use crate::ir::{ConstView, HeadingId, InstView, ProcTypeView, ScalarOp, ValueId};
use crate::layout::{lays_out, record_bytes};
use crate::lower::kinds::proc_of_type;
use crate::lower::patterns::{
    bind_const, binds_first, cells_first, kept_attrs, needs_release, release_first,
    release_temps_first, rename_perm,
};
use crate::lower::program::is_call;
use crate::lower::state::{keys_of, lemma_name_index, name_index, Bound, State, StopView};
use crate::lower::valid::primitives::{
    group_runs, is_type, lemma_declare, lemma_define, lemma_define_emit, lemma_define_then,
    lemma_emit, lemma_emit_query, lemma_grows_on, lemma_halted, lemma_intern, lemma_own,
    lemma_owns, lemma_plan, lemma_relation_id, lemma_runs_here, lemma_symbol_stays,
    lemma_top_locals, may_explain,
};
use crate::lower::valid::{
    grows, has_symbol, is_bracket, is_heading, is_supplied, is_value, may_query, may_write,
    named_in, runs, sound, symbol_for, type_in, typed_in,
};
use crate::rel_analysis::renamed_attrs;
use crate::rel_expr::RelView;
use crate::text::Name;
use crate::types::{canonical, heading_union, lookup_attr, HeadingView, TypeView};
use vstd::prelude::*;

verus! {

/// Whether named values exist, unless lowering has stopped.
pub open spec fn are_fields(st: State, fields: Seq<(Name, ValueId)>) -> bool {
    st.stop is Some || named_in(fields, st.frame.types.len())
}

/// Whether typed values exist, unless lowering has stopped.
pub open spec fn are_typed(st: State, vs: Seq<(ValueId, ProcTypeView)>) -> bool {
    st.stop is Some || typed_in(vs, st.frame.types.len())
}

/// What is there stays there.
pub proof fn lemma_symbol_kept(a: State, b: State, symbol: Name)
    requires
        grows(a, b),
        a.stop is Some || has_symbol(a.functions, symbol),
    ensures
        b.stop is Some || has_symbol(b.functions, symbol),
{
    reveal(grows);
    if b.stop is None {
        lemma_symbol_stays(a.functions, b.functions, symbol);
    }
}

/// The machine type of a surface type holds no relation.
pub proof fn lemma_plain_type(t: TypeView, n: nat)
    ensures
        proc_of_type(t) matches Some(p) ==> type_in(p, n),
    decreases t,
{
    match t {
        TypeView::Sequence(elem) => lemma_plain_type(*elem, n),
        _ => {},
    }
}

pub proof fn lemma_unlowered(st: State)
    requires
        sound(st),
    ensures
        sound(st.unlowered().0),
        runs(st, st.unlowered().0),
        st.unlowered().0.stop is Some,
        is_value(st.unlowered().0, st.unlowered().1),
{
    reveal(State::unlowered);
    lemma_halted(st, StopView::NotLowered);
}

pub proof fn lemma_release_temp(st: State, v: ValueId)
    requires
        sound(st),
    ensures
        sound(st.release_temp(v)),
        runs(st, st.release_temp(v)),
{
    reveal(State::release_temp);
    lemma_runs_here(st);
    if st.owns(v) && !st.is_bound(v) {
        lemma_owns(st, v);
        lemma_emit(st, InstView::Release { src: v });
    }
}

proof fn lemma_release_temps_first(st: State, vs: Seq<ValueId>, n: nat)
    requires
        sound(st),
    ensures
        sound(release_temps_first(st, vs, n)),
        runs(st, release_temps_first(st, vs, n)),
    decreases n,
{
    broadcast use group_runs;

    if n == 0 {
        lemma_runs_here(st);
    } else {
        lemma_release_temps_first(st, vs, (n - 1) as nat);
        lemma_release_temp(release_temps_first(st, vs, (n - 1) as nat), vs[n - 1]);
    }
}

pub proof fn lemma_release_temps(st: State, vs: Seq<ValueId>)
    requires
        sound(st),
    ensures
        sound(st.release_temps(vs)),
        runs(st, st.release_temps(vs)),
{
    reveal(State::release_temps);
    lemma_release_temps_first(st, vs, vs.len());
}

pub proof fn lemma_release_unbound(st: State, v: ValueId)
    requires
        sound(st),
        is_value(st, v),
    ensures
        sound(st.release_unbound(v)),
        runs(st, st.release_unbound(v)),
{
    reveal(State::release_unbound);
    lemma_runs_here(st);
    if !st.is_bound(v) {
        lemma_emit(st, InstView::Release { src: v });
    }
}

proof fn lemma_release_first(st: State, locals: Seq<Bound>, n: nat)
    requires
        sound(st),
        n <= locals.len(),
        forall|i: int| 0 <= i < locals.len() ==> is_value(st, (#[trigger] locals[i]).0),
    ensures
        sound(release_first(st, locals, n)),
        runs(st, release_first(st, locals, n)),
    decreases n,
{
    broadcast use group_runs;

    if n == 0 {
        lemma_runs_here(st);
    } else {
        lemma_release_first(st, locals, (n - 1) as nat);
        let before = release_first(st, locals, (n - 1) as nat);
        let (v, ty) = locals[n - 1];
        assert(is_value(st, locals[n - 1].0));
        if !before.is_param(v) && needs_release(before, v, ty) {
            lemma_emit(before, InstView::Release { src: v });
        }
    }
}

pub proof fn lemma_release_scope(st: State)
    requires
        sound(st),
    ensures
        sound(st.release_scope()),
        runs(st, st.release_scope()),
{
    reveal(State::release_scope);
    lemma_top_locals(st);
    lemma_release_first(st, st.top_locals(), st.top_locals().len());
}

pub proof fn lemma_retain_escaping(st: State, v: ValueId)
    requires
        sound(st),
        is_value(st, v),
    ensures
        sound(st.retain_escaping(v)),
        runs(st, st.retain_escaping(v)),
{
    reveal(State::retain_escaping);
    lemma_runs_here(st);
    if st.binds_in_top(v) && needs_release(st, v, st.type_of(v)) {
        lemma_emit(st, InstView::Retain { src: v });
    }
}

pub proof fn lemma_constant(st: State, value: ConstView, ty: ProcTypeView)
    requires
        sound(st),
        is_type(st, ty),
    ensures
        sound(st.constant(value, ty).0),
        runs(st, st.constant(value, ty).0),
        is_value(st.constant(value, ty).0, st.constant(value, ty).1),
{
    reveal(State::constant);
    let (_, dst) = st.define(ty);
    lemma_define(st, ty);
    lemma_define_emit(st, ty, InstView::Const { dst, value, ty });
}

pub proof fn lemma_text_const(st: State, bytes: Seq<u8>)
    requires
        sound(st),
    ensures
        sound(st.text_const(bytes).0),
        runs(st, st.text_const(bytes).0),
        is_value(st.text_const(bytes).0, st.text_const(bytes).1),
{
    reveal(State::text_const);
    lemma_constant(st, ConstView::Text(bytes), ProcTypeView::Text);
}

pub proof fn lemma_call_runtime(st: State, name: Name)
    requires
        sound(st),
        symbol_for(name) == name,
        name != "main"@,
        st.env.planned || !is_bracket(name),
    ensures
        sound(st.call_runtime(name)),
        runs(st, st.call_runtime(name)),
        st.call_runtime(name).stop is None ==> {
            let insts = st.call_runtime(name).frame.insts;
            &&& insts.len() == st.frame.insts.len() + 1
            &&& is_call(insts.last(), name)
            &&& st.call_runtime(name).frame.blocks == st.frame.blocks
        },
{
    broadcast use group_runs;

    reveal(State::call_runtime);
    let st1 = st.declare(name, name, Seq::empty(), ProcTypeView::Integer);
    lemma_declare(st, name, name, Seq::empty(), ProcTypeView::Integer);
    let (st2, dst) = st1.define(ProcTypeView::Integer);
    lemma_define(st1, ProcTypeView::Integer);
    lemma_symbol_kept(st1, st2, name);
    lemma_define_emit(
        st1,
        ProcTypeView::Integer,
        InstView::Call {
            dst: Some(dst),
            callee: name,
            args: Seq::empty(),
            return_type: ProcTypeView::Integer,
        },
    );
    reveal(State::declare);
    reveal(State::define);
    reveal(State::emit);
}

pub proof fn lemma_binds_first(st: State, params: Seq<ParamView>, n: nat)
    requires
        sound(st),
    ensures
        sound(binds_first(st, params, n).0),
        runs(st, binds_first(st, params, n).0),
        are_typed(binds_first(st, params, n).0, binds_first(st, params, n).1),
    decreases n,
{
    broadcast use group_runs;

    if n == 0 {
        lemma_runs_here(st);
    } else {
        lemma_binds_first(st, params, (n - 1) as nat);
        let (before, _) = binds_first(st, params, (n - 1) as nat);
        match params[n - 1] {
            ParamView::Value(v) => {
                let (value, ty) = bind_const(v);
                lemma_constant(before, value, ty);
            },
            ParamView::SlotCell { .. } => {
                lemma_halted(before, StopView::NotLowered);
            },
        }
    }
}

proof fn lemma_binds_note_nothing(st: State, params: Seq<ParamView>, n: nat)
    ensures
        binds_first(st, params, n).0.relir == st.relir,
        binds_first(st, params, n).0.asked == st.asked,
    decreases n,
{
    if n > 0 {
        lemma_binds_note_nothing(st, params, (n - 1) as nat);
        reveal(State::constant);
        reveal(State::define);
        reveal(State::emit);
        reveal(State::halted);
    }
}

/// A query, noted as that of a pushed expression.
pub proof fn lemma_query(st: State, q: QueryView, rel: RelView)
    requires
        sound(st),
        is_supplied(st, q),
        may_query(st),
        may_explain(st, rel, q.text),
    ensures
        sound(st.query(q).0.explain(rel, q.text)),
        runs(st, st.query(q).0.explain(rel, q.text)),
        is_value(st.query(q).0.explain(rel, q.text), st.query(q).1),
{
    broadcast use group_runs;

    reveal(State::query);
    let (st1, heading_id) = st.intern(q.result_heading);
    lemma_intern(st, q.result_heading);
    let (st2, plan_id) = st1.plan(q, heading_id);
    lemma_plan(st1, q, heading_id);
    let (st3, params) = binds_first(st2, q.params, q.params.len());
    lemma_binds_first(st2, q.params, q.params.len());
    lemma_binds_note_nothing(st2, q.params, q.params.len());
    let ty = ProcTypeView::Relation(heading_id);
    let (st4, dst) = st3.define(ty);
    lemma_define(st3, ty);
    assert(st4.relir == st.relir && st4.asked == st.asked) by {
        reveal(State::intern);
        reveal(State::plan);
        reveal(State::define);
        reveal(State::halted);
    }
    assert(st4.stop is None ==> st4.plans[plan_id as int] == st2.plans[plan_id as int]) by {
        lemma_grows_on(st2, st3, st4);
        reveal(grows);
    }
    let inst = InstView::Query { dst, plan_id, params, rels: Seq::empty(), heading_id };
    lemma_emit_query(st4, inst, rel, q.text);
    lemma_define_then(st3, ty, st4.emit(inst).explain(rel, q.text));
}

pub proof fn lemma_dml(st: State, q: QueryView)
    requires
        sound(st),
        is_supplied(st, q),
        may_write(st),
    ensures
        sound(st.dml(q)),
        runs(st, st.dml(q)),
{
    broadcast use group_runs;

    reveal(State::dml);
    let (st1, heading_id) = st.intern(q.result_heading);
    lemma_intern(st, q.result_heading);
    let (st2, plan_id) = st1.plan(q, heading_id);
    lemma_plan(st1, q, heading_id);
    let (st3, params) = binds_first(st2, q.params, q.params.len());
    lemma_binds_first(st2, q.params, q.params.len());
    lemma_emit(st3, InstView::Dml { plan_id, params });
}

pub proof fn lemma_join(st: State, lhs: ValueId, rhs: ValueId)
    requires
        sound(st),
        is_value(st, lhs),
        is_value(st, rhs),
    ensures
        sound(st.join(lhs, rhs).0),
        runs(st, st.join(lhs, rhs).0),
        is_value(st.join(lhs, rhs).0, st.join(lhs, rhs).1),
{
    broadcast use group_runs;

    reveal(State::join);
    lemma_unlowered(st);
    lemma_relation_id(st, lhs);
    lemma_relation_id(st, rhs);
    match (st.relation_id(lhs), st.relation_id(rhs)) {
        (Some(l), Some(r)) => {
            let h = heading_union(st.heading_at(l), st.heading_at(r));
            let (st1, result) = st.intern(h);
            lemma_intern(st, h);
            let ty = ProcTypeView::Relation(result);
            let (_, dst) = st1.define(ty);
            lemma_define(st1, ty);
            lemma_define_emit(
                st1,
                ty,
                InstView::Join {
                    dst,
                    lhs,
                    rhs,
                    lhs_heading_id: l,
                    rhs_heading_id: r,
                    result_heading_id: result,
                },
            );
        },
        _ => {},
    }
}

pub proof fn lemma_unite(st: State, lhs: ValueId, rhs: ValueId)
    requires
        sound(st),
        is_value(st, lhs),
        is_value(st, rhs),
    ensures
        sound(st.unite(lhs, rhs).0),
        runs(st, st.unite(lhs, rhs).0),
        is_value(st.unite(lhs, rhs).0, st.unite(lhs, rhs).1),
{
    broadcast use group_runs;

    reveal(State::unite);
    lemma_unlowered(st);
    lemma_relation_id(st, lhs);
    if let Some(id) = st.relation_id(lhs) {
        let ty = ProcTypeView::Relation(id);
        let (_, dst) = st.define(ty);
        lemma_define(st, ty);
        lemma_define_emit(st, ty, InstView::Union { dst, lhs, rhs, heading_id: id });
    }
}

pub proof fn lemma_subtract(st: State, lhs: ValueId, rhs: ValueId)
    requires
        sound(st),
        is_value(st, lhs),
        is_value(st, rhs),
    ensures
        sound(st.subtract(lhs, rhs).0),
        runs(st, st.subtract(lhs, rhs).0),
        is_value(st.subtract(lhs, rhs).0, st.subtract(lhs, rhs).1),
{
    broadcast use group_runs;

    reveal(State::subtract);
    lemma_unlowered(st);
    lemma_relation_id(st, lhs);
    if let Some(id) = st.relation_id(lhs) {
        let ty = ProcTypeView::Relation(id);
        let (_, dst) = st.define(ty);
        lemma_define(st, ty);
        lemma_define_emit(st, ty, InstView::Minus { dst, lhs, rhs, heading_id: id });
    }
}

pub proof fn lemma_close(st: State, src: ValueId)
    requires
        sound(st),
        is_value(st, src),
    ensures
        sound(st.close(src).0),
        runs(st, st.close(src).0),
        is_value(st.close(src).0, st.close(src).1),
{
    broadcast use group_runs;

    reveal(State::close);
    lemma_unlowered(st);
    lemma_relation_id(st, src);
    if let Some(id) = st.relation_id(src) {
        let ty = ProcTypeView::Relation(id);
        let (_, dst) = st.define(ty);
        lemma_define(st, ty);
        lemma_define_emit(st, ty, InstView::TClose { dst, src, heading_id: id });
    }
}

pub proof fn lemma_project(st: State, src: ValueId, listed: Seq<Name>, all_but: bool)
    requires
        sound(st),
        is_value(st, src),
    ensures
        sound(st.project(src, listed, all_but).0),
        runs(st, st.project(src, listed, all_but).0),
        is_value(st.project(src, listed, all_but).0, st.project(src, listed, all_but).1),
{
    broadcast use group_runs;

    reveal(State::project);
    lemma_unlowered(st);
    lemma_relation_id(st, src);
    if let Some(id) = st.relation_id(src) {
        let h = canonical(kept_attrs(st.heading_at(id), listed, all_but));
        let (st1, result) = st.intern(h);
        lemma_intern(st, h);
        let ty = ProcTypeView::Relation(result);
        let (_, dst) = st1.define(ty);
        lemma_define(st1, ty);
        lemma_define_emit(
            st1,
            ty,
            InstView::Project { dst, src, src_heading_id: id, result_heading_id: result },
        );
    }
}

pub proof fn lemma_rename(st: State, src: ValueId, renames: Seq<(Name, Name)>)
    requires
        sound(st),
        is_value(st, src),
    ensures
        sound(st.rename(src, renames).0),
        runs(st, st.rename(src, renames).0),
        is_value(st.rename(src, renames).0, st.rename(src, renames).1),
{
    broadcast use group_runs;

    reveal(State::rename);
    lemma_unlowered(st);
    lemma_relation_id(st, src);
    if let Some(id) = st.relation_id(src) {
        let source = st.heading_at(id);
        let h = canonical(renamed_attrs(renames, source));
        let (st1, result) = st.intern(h);
        lemma_intern(st, h);
        let ty = ProcTypeView::Relation(result);
        let (_, dst) = st1.define(ty);
        lemma_define(st1, ty);
        lemma_define_emit(
            st1,
            ty,
            InstView::Rename {
                dst,
                src,
                src_heading_id: id,
                result_heading_id: result,
                perm: rename_perm(source, h, renames),
            },
        );
    }
}

pub proof fn lemma_restructure(st: State, src: ValueId, h: HeadingView)
    requires
        sound(st),
        is_value(st, src),
    ensures
        sound(st.restructure(src, h).0),
        runs(st, st.restructure(src, h).0),
        is_value(st.restructure(src, h).0, st.restructure(src, h).1),
{
    broadcast use group_runs;

    reveal(State::restructure);
    lemma_unlowered(st);
    lemma_relation_id(st, src);
    if let Some(id) = st.relation_id(src) {
        let (st1, result) = st.intern(h);
        lemma_intern(st, h);
        let ty = ProcTypeView::Relation(result);
        let (_, dst) = st1.define(ty);
        lemma_define(st1, ty);
        lemma_define_emit(
            st1,
            ty,
            InstView::Restructure { dst, src, src_heading_id: id, result_heading_id: result },
        );
    }
}

pub proof fn lemma_empty_relation(st: State, h: HeadingView)
    requires
        sound(st),
    ensures
        sound(st.empty_relation(h).0),
        runs(st, st.empty_relation(h).0),
        is_value(st.empty_relation(h).0, st.empty_relation(h).1),
{
    broadcast use group_runs;

    reveal(State::empty_relation);
    let (st1, heading_id) = st.intern(h);
    lemma_intern(st, h);
    let ty = ProcTypeView::Relation(heading_id);
    let (_, dst) = st1.define(ty);
    lemma_define(st1, ty);
    lemma_define_emit(st1, ty, InstView::RelationLit { dst, tuples: Seq::empty(), heading_id });
}

pub proof fn lemma_read_slot(st: State, name: Name, heading_id: HeadingId)
    requires
        sound(st),
        is_heading(st, heading_id),
    ensures
        sound(st.read_slot(name, heading_id).0),
        runs(st, st.read_slot(name, heading_id).0),
        is_value(st.read_slot(name, heading_id).0, st.read_slot(name, heading_id).1),
{
    broadcast use group_runs;

    reveal(State::read_slot);
    let ty = ProcTypeView::Relation(heading_id);
    let (_, dst) = st.define(ty);
    lemma_define(st, ty);
    lemma_define_emit(st, ty, InstView::RelvarRead { dst, name, heading_id });
}

pub proof fn lemma_concat(st: State, lhs: ValueId, rhs: ValueId)
    requires
        sound(st),
        is_value(st, lhs),
        is_value(st, rhs),
    ensures
        sound(st.concat(lhs, rhs).0),
        runs(st, st.concat(lhs, rhs).0),
        is_value(st.concat(lhs, rhs).0, st.concat(lhs, rhs).1),
{
    broadcast use group_runs;

    reveal(State::concat);
    let (st1, dst) = st.define(ProcTypeView::Text);
    lemma_define(st, ProcTypeView::Text);
    let inst = InstView::ScalarOp {
        dst,
        op: ScalarOp::Concat,
        operand_type: ProcTypeView::Text,
        lhs,
        rhs,
    };
    lemma_define_emit(st, ProcTypeView::Text, inst);
    let st2 = st1.emit(inst);
    lemma_own(st2, dst);
    lemma_release_temp(st2.own(dst), lhs);
    lemma_release_temp(st2.own(dst).release_temp(lhs), rhs);
}

pub proof fn lemma_coerce_to_text(st: State, v: ValueId)
    requires
        sound(st),
        is_value(st, v),
    ensures
        sound(st.coerce_to_text(v).0),
        runs(st, st.coerce_to_text(v).0),
        is_value(st.coerce_to_text(v).0, st.coerce_to_text(v).1),
{
    broadcast use group_runs;

    reveal(State::coerce_to_text);
    lemma_runs_here(st);
    if st.type_of(v) is Character {
        let (st1, dst) = st.define(ProcTypeView::Text);
        lemma_define(st, ProcTypeView::Text);
        let inst = InstView::CharToText { dst, src: v };
        lemma_define_emit(st, ProcTypeView::Text, inst);
        lemma_own(st1.emit(inst), dst);
    }
}

pub proof fn lemma_convert_to_text(
    st: State,
    name: Name,
    linkage: Name,
    params: Seq<(Name, ProcTypeView)>,
    v: ValueId,
)
    requires
        sound(st),
        is_value(st, v),
        linkage == symbol_for(name),
        name != "main"@,
        st.env.planned || !is_bracket(linkage),
    ensures
        sound(st.convert_to_text(name, linkage, params, v).0),
        runs(st, st.convert_to_text(name, linkage, params, v).0),
        is_value(
            st.convert_to_text(name, linkage, params, v).0,
            st.convert_to_text(name, linkage, params, v).1,
        ),
{
    broadcast use group_runs;

    reveal(State::convert_to_text);
    let st1 = st.declare(name, linkage, params, ProcTypeView::Text);
    lemma_declare(st, name, linkage, params, ProcTypeView::Text);
    let (st2, dst) = st1.define(ProcTypeView::Text);
    lemma_define(st1, ProcTypeView::Text);
    lemma_symbol_kept(st1, st2, linkage);
    let inst = InstView::Call {
        dst: Some(dst),
        callee: linkage,
        args: seq![v],
        return_type: ProcTypeView::Text,
    };
    lemma_define_emit(st1, ProcTypeView::Text, inst);
    lemma_own(st2.emit(inst), dst);
}

/// An operator that the program has can be called, and its result is a value.
pub proof fn lemma_oper(st: State, name: Name)
    requires
        sound(st),
    ensures
        st.oper(name) matches Some(sig) ==> {
            &&& keys_of(st.env.opers).contains(name)
            &&& is_type(st, sig.1)
        },
{
    reveal(State::oper);
    reveal(sound);
    let keys = keys_of(st.env.opers);
    lemma_name_index(keys, name);
    if let Some(sig) = st.oper(name) {
        let i = name_index(keys, name);
        assert(keys[i as int] == name);
        if st.stop is None {
            assert(type_in(st.env.opers[i as int].1.1, 0));
            lemma_type_anywhere(sig.1, st.headings.len());
        }
    }
}

/// A type without relations is one in any table.
pub proof fn lemma_type_anywhere(t: ProcTypeView, n: nat)
    requires
        type_in(t, 0),
    ensures
        type_in(t, n),
    decreases t,
{
    match t {
        ProcTypeView::Sequence(elem) => lemma_type_anywhere(*elem, n),
        _ => {},
    }
}

pub proof fn lemma_call_to_text(st: State, v: ValueId, return_type: ProcTypeView)
    requires
        sound(st),
        is_value(st, v),
        is_type(st, return_type),
        keys_of(st.env.opers).contains("to_text"@),
    ensures
        sound(st.call_to_text(v, return_type).0),
        runs(st, st.call_to_text(v, return_type).0),
        is_value(st.call_to_text(v, return_type).0, st.call_to_text(v, return_type).1),
{
    broadcast use group_runs;

    reveal(State::call_to_text);
    let (st1, dst) = st.define(return_type);
    lemma_define(st, return_type);
    let inst = InstView::Call { dst: Some(dst), callee: "to_text"@, args: seq![v], return_type };
    lemma_define_emit(st, return_type, inst);
    if return_type is Text {
        lemma_own(st1.emit(inst), dst);
    }
}

/// The symbols of the functions that are defined elsewhere.
pub proof fn lemma_symbols()
    ensures
        symbol_for("write_line"@) == "coddl_write_line"@,
        symbol_for("read_line"@) == "coddl_read_line"@,
        symbol_for("cardinality"@) == "coddl_rc_length"@,
        symbol_for("int_to_text"@) == "coddl_int_to_text"@,
        symbol_for("bool_to_text"@) == "coddl_bool_to_text"@,
        symbol_for("coddl_seq_index"@) == "coddl_seq_index"@,
        symbol_for("coddl_begin_tx"@) == "coddl_begin_tx"@,
        symbol_for("coddl_commit_tx"@) == "coddl_commit_tx"@,
        symbol_for("coddl_runtime_init"@) == "coddl_runtime_init"@,
        symbol_for("coddl_runtime_shutdown"@) == "coddl_runtime_shutdown"@,
        "write_line"@ != "main"@,
        "read_line"@ != "main"@,
        "cardinality"@ != "main"@,
        "int_to_text"@ != "main"@,
        "bool_to_text"@ != "main"@,
        "coddl_seq_index"@ != "main"@,
        "coddl_begin_tx"@ != "main"@,
        "coddl_commit_tx"@ != "main"@,
        "coddl_runtime_init"@ != "main"@,
        "coddl_runtime_shutdown"@ != "main"@,
        !is_bracket("coddl_write_line"@),
        !is_bracket("coddl_read_line"@),
        !is_bracket("coddl_rc_length"@),
        !is_bracket("coddl_int_to_text"@),
        !is_bracket("coddl_bool_to_text"@),
        !is_bracket("coddl_seq_index"@),
        !is_bracket("coddl_runtime_init"@),
        !is_bracket("coddl_runtime_shutdown"@),
{
    reveal_strlit("coddl_write_line");
    reveal_strlit("coddl_read_line");
    reveal_strlit("coddl_rc_length");
    reveal_strlit("coddl_int_to_text");
    reveal_strlit("coddl_bool_to_text");
    reveal_strlit("main");
    reveal_strlit("write_line");
    reveal_strlit("read_line");
    reveal_strlit("cardinality");
    reveal_strlit("int_to_text");
    reveal_strlit("bool_to_text");
    reveal_strlit("coddl_seq_index");
    reveal_strlit("coddl_begin_tx");
    reveal_strlit("coddl_commit_tx");
    reveal_strlit("coddl_runtime_init");
    reveal_strlit("coddl_runtime_shutdown");
    assert("write_line"@.len() == 10 && "read_line"@.len() == 9);
    assert("cardinality"@.len() == 11 && "int_to_text"@.len() == 11);
    assert("bool_to_text"@.len() == 12);
    assert("cardinality"@[0] == 'c' && "int_to_text"@[0] == 'i');
    assert("main"@.len() == 4 && "coddl_seq_index"@.len() == 15);
    assert("coddl_begin_tx"@.len() == 14 && "coddl_commit_tx"@.len() == 15);
    assert("coddl_runtime_init"@.len() == 18 && "coddl_runtime_shutdown"@.len() == 22);
    assert("coddl_write_line"@.len() == 16 && "coddl_int_to_text"@.len() == 17);
    assert("coddl_bool_to_text"@.len() == 18 && "coddl_commit_tx"@[6] == 'c');
    assert("coddl_read_line"@.len() == 15 && "coddl_read_line"@[6] == 'r');
    assert("coddl_rc_length"@.len() == 15 && "coddl_rc_length"@[6] == 'r');
    assert("coddl_seq_index"@[6] == 's');
}

pub proof fn lemma_bracket(st: State, name: Name)
    requires
        sound(st),
        symbol_for(name) == name,
        name != "main"@,
    ensures
        sound(st.bracket(name)),
        runs(st, st.bracket(name)),
{
    reveal(State::bracket);
    lemma_runs_here(st);
    if st.env.planned {
        lemma_call_runtime(st, name);
    }
}

pub proof fn lemma_builtin_to_text(st: State, v: ValueId, ty: ProcTypeView)
    requires
        sound(st),
        is_value(st, v),
    ensures
        sound(st.builtin_to_text(v, ty).0),
        runs(st, st.builtin_to_text(v, ty).0),
        is_value(st.builtin_to_text(v, ty).0, st.builtin_to_text(v, ty).1),
{
    broadcast use group_runs;

    reveal(State::builtin_to_text);
    lemma_symbols();
    match ty {
        ProcTypeView::Text => {
            let (st1, empty) = st.text_const(Seq::empty());
            lemma_text_const(st, Seq::empty());
            lemma_concat(st1, empty, v);
        },
        ProcTypeView::Character => lemma_coerce_to_text(st, v),
        ProcTypeView::Integer => lemma_convert_to_text(
            st,
            "int_to_text"@,
            "coddl_int_to_text"@,
            seq![("n"@, ProcTypeView::Integer)],
            v,
        ),
        ProcTypeView::Boolean => lemma_convert_to_text(
            st,
            "bool_to_text"@,
            "coddl_bool_to_text"@,
            seq![("b"@, ProcTypeView::Boolean)],
            v,
        ),
        _ => lemma_unlowered(st),
    }
}

pub proof fn lemma_to_text(st: State, v: ValueId)
    requires
        sound(st),
        is_value(st, v),
    ensures
        sound(st.to_text(v).0),
        runs(st, st.to_text(v).0),
        is_value(st.to_text(v).0, st.to_text(v).1),
{
    reveal(State::to_text);
    let ty = st.type_of(v);
    lemma_oper(st, "to_text"@);
    lemma_builtin_to_text(st, v, ty);
    match st.oper("to_text"@) {
        Some(sig) => {
            lemma_call_to_text(st, v, sig.1);
        },
        None => {},
    }
}

pub proof fn lemma_cells_first(st: State, record: ValueId, h: HeadingView, n: nat)
    requires
        sound(st),
        is_value(st, record),
    ensures
        sound(cells_first(st, record, h, n).0),
        runs(st, cells_first(st, record, h, n).0),
        are_fields(cells_first(st, record, h, n).0, cells_first(st, record, h, n).1),
    decreases n,
{
    broadcast use group_runs;

    if n == 0 {
        lemma_runs_here(st);
    } else {
        lemma_cells_first(st, record, h, (n - 1) as nat);
        let (before, _) = cells_first(st, record, h, (n - 1) as nat);
        lemma_halted(before, StopView::NotLowered);
        if let Some(t) = lookup_attr(h, h[n - 1].0) {
            lemma_plain_type(t, before.headings.len());
            if let Some(ty) = proc_of_type(t) {
                let (_, cell) = before.define(ty);
                lemma_define(before, ty);
                lemma_define_emit(
                    before,
                    ty,
                    InstView::AttrLoad {
                        dst: cell,
                        src: record,
                        offset: record_bytes(h.take(n - 1))->0 as u32,
                        attr_type: ty,
                    },
                );
            }
        }
    }
}

pub proof fn lemma_tuple_element(st: State, record: ValueId, h: HeadingView)
    requires
        sound(st),
        is_value(st, record),
    ensures
        sound(st.tuple_element(record, h).0),
        runs(st, st.tuple_element(record, h).0),
        is_value(st.tuple_element(record, h).0, st.tuple_element(record, h).1),
{
    broadcast use group_runs;

    reveal(State::tuple_element);
    lemma_unlowered(st);
    if lays_out(h) {
        let (st1, fields) = cells_first(st, record, h, h.len());
        lemma_cells_first(st, record, h, h.len());
        let ty = ProcTypeView::Tuple(h);
        let (_, dst) = st1.define(ty);
        lemma_define(st1, ty);
        lemma_define_emit(st1, ty, InstView::TupleLit { dst, fields, heading: h });
    }
}

pub proof fn lemma_scalar_element(st: State, record: ValueId, ty: ProcTypeView)
    requires
        sound(st),
        is_value(st, record),
        is_type(st, ty),
    ensures
        sound(st.scalar_element(record, ty).0),
        runs(st, st.scalar_element(record, ty).0),
        is_value(st.scalar_element(record, ty).0, st.scalar_element(record, ty).1),
{
    broadcast use group_runs;

    reveal(State::scalar_element);
    let (st1, dst) = st.define(ty);
    lemma_define(st, ty);
    let inst = InstView::AttrLoad { dst, src: record, offset: 0, attr_type: ty };
    lemma_define_emit(st, ty, inst);
    if ty is Text {
        let st2 = st1.emit(inst);
        lemma_emit(st2, InstView::Retain { src: dst });
        lemma_own(st2.emit(InstView::Retain { src: dst }), dst);
    }
}

pub proof fn lemma_element(st: State, seq: ValueId, index: ValueId, ty: ProcTypeView)
    requires
        sound(st),
        is_value(st, seq),
        is_value(st, index),
        is_type(st, ty),
    ensures
        sound(st.element(seq, index, ty).0),
        runs(st, st.element(seq, index, ty).0),
        is_value(st.element(seq, index, ty).0, st.element(seq, index, ty).1),
{
    broadcast use group_runs;

    reveal(State::element);
    lemma_symbols();
    let params = seq![("seq"@, ProcTypeView::Pointer), ("index"@, ProcTypeView::Integer)];
    let st1 = st.declare(
        "coddl_seq_index"@,
        "coddl_seq_index"@,
        params,
        ProcTypeView::Pointer,
    );
    lemma_declare(st, "coddl_seq_index"@, "coddl_seq_index"@, params, ProcTypeView::Pointer);
    let (st2, record) = st1.define(ProcTypeView::Pointer);
    lemma_define(st1, ProcTypeView::Pointer);
    lemma_symbol_kept(st1, st2, "coddl_seq_index"@);
    let inst = InstView::Call {
        dst: Some(record),
        callee: "coddl_seq_index"@,
        args: seq![seq, index],
        return_type: ProcTypeView::Pointer,
    };
    lemma_define_emit(st1, ProcTypeView::Pointer, inst);
    let st3 = st2.emit(inst);
    lemma_type_later(st, st3, ty);
    match ty {
        ProcTypeView::Tuple(h) => lemma_tuple_element(st3, record, h),
        _ => lemma_scalar_element(st3, record, ty),
    }
}

/// A type stays one.
pub proof fn lemma_type_later(a: State, b: State, ty: ProcTypeView)
    requires
        runs(a, b),
        is_type(a, ty),
    ensures
        is_type(b, ty),
    decreases ty,
{
    broadcast use group_runs;

    match ty {
        ProcTypeView::Sequence(elem) => lemma_type_later(a, b, *elem),
        _ => {},
    }
}

} // verus!
