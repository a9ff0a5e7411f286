//! The instruction patterns that lowering is made of.

use crate::cut::{ParamView, QueryView, Value, ValueView};
use crate::ir::{Const, ConstView, HeadingId, InstView, ProcTypeView, ScalarOp, ValueId};
use crate::layout::{lays_out, record_bytes};
use crate::lower::kinds::proc_of_type;
use crate::lower::state::{is_heap, name_index, Bound, State, StopView};
use crate::rel_analysis::renamed_attrs;
use crate::rel_expr::RelView;
use crate::text::Name;
use crate::types::{
    attr_names, attrs_within, attrs_without, canonical, heading_union, headings_agree, lookup_attr,
    HeadingView,
};
use vstd::prelude::*;
use vstd::utf8::encode_utf8;

verus! {

/// Whether a bound value is to be released when its layer ends.
pub open spec fn needs_release(st: State, v: ValueId, ty: ProcTypeView) -> bool {
    is_heap(ty) || (ty is Text && st.owns(v))
}

/// The first `n` of the bindings released that need it; parameters belong to
/// the caller.
pub open spec fn release_first(st: State, locals: Seq<Bound>, n: nat) -> State
    decreases n,
{
    if n == 0 {
        st
    } else {
        let before = release_first(st, locals, (n - 1) as nat);
        let (v, ty) = locals[n - 1];
        if !before.is_param(v) && needs_release(before, v, ty) {
            before.emit(InstView::Release { src: v })
        } else {
            before
        }
    }
}

/// The first `n` of the texts released that nothing else releases.
pub open spec fn release_temps_first(st: State, vs: Seq<ValueId>, n: nat) -> State
    decreases n,
{
    if n == 0 {
        st
    } else {
        release_temps_first(st, vs, (n - 1) as nat).release_temp(vs[n - 1])
    }
}

/// The constant of a bind value and its type.
pub open spec fn bind_const(v: ValueView) -> (ConstView, ProcTypeView) {
    match v {
        ValueView::Integer(n) => (ConstView::Integer(n), ProcTypeView::Integer),
        ValueView::Text(s) => (ConstView::Text(encode_utf8(s)), ProcTypeView::Text),
        ValueView::Boolean(b) => (ConstView::Boolean(b), ProcTypeView::Boolean),
    }
}

/// The first `n` bind values as constants.
pub open spec fn binds_first(st: State, params: Seq<ParamView>, n: nat) -> (
    State,
    Seq<(ValueId, ProcTypeView)>,
)
    decreases n,
{
    if n == 0 {
        (st, Seq::empty())
    } else {
        let (before, vs) = binds_first(st, params, (n - 1) as nat);
        match params[n - 1] {
            ParamView::Value(v) => {
                let (value, ty) = bind_const(v);
                let (after, dst) = before.constant(value, ty);
                (after, vs.push((dst, ty)))
            },
            ParamView::SlotCell { .. } => (before.halted(StopView::NotLowered), vs),
        }
    }
}

/// The old name of a new one; the name itself when nothing is renamed to it.
pub open spec fn unrenamed(renames: Seq<(Name, Name)>, new: Name) -> Name
    decreases renames.len(),
{
    if renames.len() == 0 {
        new
    } else if renames[0].1 == new {
        renames[0].0
    } else {
        unrenamed(renames.drop_first(), new)
    }
}

/// The place of an attribute; zero when it is not there.
pub open spec fn attr_place(h: HeadingView, name: Name) -> nat {
    let i = name_index(attr_names(h), name);
    if i < h.len() {
        i
    } else {
        0
    }
}

/// For each attribute of the renamed heading, its place in the source.
pub open spec fn rename_perm(
    source: HeadingView,
    result: HeadingView,
    renames: Seq<(Name, Name)>,
) -> Seq<u32> {
    Seq::new(result.len(), |i: int| attr_place(source, unrenamed(renames, result[i].0)) as u32)
}

/// The heading after attributes were gathered into tuples.
pub open spec fn wrapped_heading(h: HeadingView, wraps: Seq<(Name, HeadingView)>) -> HeadingView {
    RelView::Wrap {
        input: Box::new(RelView::MaterializedRelvar { name: Seq::empty(), heading: h }),
        wraps,
    }.heading()
}

/// The heading after tuples were expanded into their components.
pub open spec fn unwrapped_heading(h: HeadingView, names: Seq<Name>) -> HeadingView {
    RelView::Unwrap {
        input: Box::new(RelView::MaterializedRelvar { name: Seq::empty(), heading: h }),
        names,
    }.heading()
}

/// The attributes that a projection keeps.
pub open spec fn kept_attrs(h: HeadingView, listed: Seq<Name>, all_but: bool) -> HeadingView {
    if all_but {
        attrs_without(h, listed)
    } else {
        attrs_within(h, listed)
    }
}

/// The first `n` cells of a record, loaded.
pub open spec fn cells_first(st: State, record: ValueId, h: HeadingView, n: nat) -> (
    State,
    Seq<(Name, ValueId)>,
)
    decreases n,
{
    if n == 0 {
        (st, Seq::empty())
    } else {
        let (before, fields) = cells_first(st, record, h, (n - 1) as nat);
        let name = h[n - 1].0;
        match lookup_attr(h, name) {
            Some(t) => match proc_of_type(t) {
                Some(ty) => {
                    let (mid, cell) = before.define(ty);
                    let after = mid.emit(
                        InstView::AttrLoad {
                            dst: cell,
                            src: record,
                            offset: record_bytes(h.take(n - 1))->0 as u32,
                            attr_type: ty,
                        },
                    );
                    (after, fields.push((name, cell)))
                },
                None => (before.halted(StopView::NotLowered), fields),
            },
            None => (before.halted(StopView::NotLowered), fields),
        }
    }
}

/// Whether the operator takes the type as its `self`.
pub open spec fn takes_self(params: Seq<(Name, ProcTypeView)>, ty: ProcTypeView) -> bool {
    exists|i: int|
        0 <= i < params.len() && (#[trigger] params[i]).0 == "self"@ && params[i].1 == ty
}

impl State {
    /// Stopped at a form that has no lowering, with a value to go on with.
    #[verifier::opaque]
    pub open spec fn unlowered(self) -> (State, ValueId) {
        (self.halted(StopView::NotLowered), ValueId(0))
    }

    /// A text released that nothing else releases.
    #[verifier::opaque]
    pub open spec fn release_temp(self, v: ValueId) -> State {
        if self.owns(v) && !self.is_bound(v) {
            self.emit(InstView::Release { src: v })
        } else {
            self
        }
    }

    /// The texts released that nothing else releases.
    #[verifier::opaque]
    pub open spec fn release_temps(self, vs: Seq<ValueId>) -> State {
        release_temps_first(self, vs, vs.len())
    }

    /// A value released that no name is bound to.
    #[verifier::opaque]
    pub open spec fn release_unbound(self, v: ValueId) -> State {
        if self.is_bound(v) {
            self
        } else {
            self.emit(InstView::Release { src: v })
        }
    }

    /// The innermost layer's values released that need it.
    #[verifier::opaque]
    pub open spec fn release_scope(self) -> State {
        release_first(self, self.top_locals(), self.top_locals().len())
    }

    /// A value that leaves the innermost layer retained, when the layer's end
    /// releases it.
    #[verifier::opaque]
    pub open spec fn retain_escaping(self, v: ValueId) -> State {
        if self.binds_in_top(v) && needs_release(self, v, self.type_of(v)) {
            self.emit(InstView::Retain { src: v })
        } else {
            self
        }
    }

    /// Whether the innermost layer binds a name to the value.
    #[verifier::opaque]
    pub open spec fn binds_in_top(self, v: ValueId) -> bool {
        exists|i: int|
            0 <= i < self.top_locals().len() && (#[trigger] self.top_locals()[i]).0 == v
    }

    /// A constant.
    #[verifier::opaque]
    pub open spec fn constant(self, value: ConstView, ty: ProcTypeView) -> (State, ValueId) {
        let (st, dst) = self.define(ty);
        (st.emit(InstView::Const { dst, value, ty }), dst)
    }

    /// A call of a run-time function without arguments.
    #[verifier::opaque]
    pub open spec fn call_runtime(self, name: Name) -> State {
        let st = self.declare(name, name, Seq::empty(), ProcTypeView::Integer);
        let (st, dst) = st.define(ProcTypeView::Integer);
        st.emit(
            InstView::Call {
                dst: Some(dst),
                callee: name,
                args: Seq::empty(),
                return_type: ProcTypeView::Integer,
            },
        )
    }

    /// A call that begins or commits a transaction, when there is a plan.
    #[verifier::opaque]
    pub open spec fn bracket(self, name: Name) -> State {
        if self.env.planned {
            self.call_runtime(name)
        } else {
            self
        }
    }

    /// A query's rows as a relation.
    #[verifier::opaque]
    pub open spec fn query(self, q: QueryView) -> (State, ValueId) {
        let (st, heading_id) = self.intern(q.result_heading);
        let (st, plan_id) = st.plan(q, heading_id);
        let (st, params) = binds_first(st, q.params, q.params.len());
        let (st, dst) = st.define(ProcTypeView::Relation(heading_id));
        (
            st.emit(InstView::Query { dst, plan_id, params, rels: Seq::empty(), heading_id }),
            dst,
        )
    }

    /// A modification run.
    #[verifier::opaque]
    pub open spec fn dml(self, q: QueryView) -> State {
        let (st, heading_id) = self.intern(q.result_heading);
        let (st, plan_id) = st.plan(q, heading_id);
        let (st, params) = binds_first(st, q.params, q.params.len());
        st.emit(InstView::Dml { plan_id, params })
    }

    /// The heading's number of a relation value.
    #[verifier::opaque]
    pub open spec fn relation_id(self, v: ValueId) -> Option<HeadingId> {
        match self.type_of(v) {
            ProcTypeView::Relation(id) => Some(id),
            _ => None,
        }
    }

    /// The join of two relations.
    #[verifier::opaque]
    pub open spec fn join(self, lhs: ValueId, rhs: ValueId) -> (State, ValueId) {
        match (self.relation_id(lhs), self.relation_id(rhs)) {
            (Some(l), Some(r)) => if headings_agree(self.heading_at(l), self.heading_at(r)) {
                let (st, result) = self.intern(
                    heading_union(self.heading_at(l), self.heading_at(r)),
                );
                let (st, dst) = st.define(ProcTypeView::Relation(result));
                (
                    st.emit(
                        InstView::Join {
                            dst,
                            lhs,
                            rhs,
                            lhs_heading_id: l,
                            rhs_heading_id: r,
                            result_heading_id: result,
                        },
                    ),
                    dst,
                )
            } else {
                self.unlowered()
            },
            _ => self.unlowered(),
        }
    }

    /// The union of two relations.
    #[verifier::opaque]
    pub open spec fn unite(self, lhs: ValueId, rhs: ValueId) -> (State, ValueId) {
        match self.relation_id(lhs) {
            Some(id) => {
                let (st, dst) = self.define(ProcTypeView::Relation(id));
                (st.emit(InstView::Union { dst, lhs, rhs, heading_id: id }), dst)
            },
            None => self.unlowered(),
        }
    }

    /// The difference of two relations.
    #[verifier::opaque]
    pub open spec fn subtract(self, lhs: ValueId, rhs: ValueId) -> (State, ValueId) {
        match self.relation_id(lhs) {
            Some(id) => {
                let (st, dst) = self.define(ProcTypeView::Relation(id));
                (st.emit(InstView::Minus { dst, lhs, rhs, heading_id: id }), dst)
            },
            None => self.unlowered(),
        }
    }

    /// The transitive closure of a relation.
    #[verifier::opaque]
    pub open spec fn close(self, src: ValueId) -> (State, ValueId) {
        match self.relation_id(src) {
            Some(id) => {
                let (st, dst) = self.define(ProcTypeView::Relation(id));
                (st.emit(InstView::TClose { dst, src, heading_id: id }), dst)
            },
            None => self.unlowered(),
        }
    }

    /// A relation narrowed to the listed attributes, or to all but those.
    #[verifier::opaque]
    pub open spec fn project(self, src: ValueId, listed: Seq<Name>, all_but: bool) -> (
        State,
        ValueId,
    ) {
        match self.relation_id(src) {
            Some(id) => {
                let (st, result) = self.intern(
                    canonical(kept_attrs(self.heading_at(id), listed, all_but)),
                );
                let (st, dst) = st.define(ProcTypeView::Relation(result));
                (
                    st.emit(
                        InstView::Project {
                            dst,
                            src,
                            src_heading_id: id,
                            result_heading_id: result,
                        },
                    ),
                    dst,
                )
            },
            None => self.unlowered(),
        }
    }

    /// A relation with attributes renamed.
    #[verifier::opaque]
    pub open spec fn rename(self, src: ValueId, renames: Seq<(Name, Name)>) -> (State, ValueId) {
        match self.relation_id(src) {
            Some(id) => {
                let source = self.heading_at(id);
                let renamed_heading = canonical(renamed_attrs(renames, source));
                let (st, result) = self.intern(renamed_heading);
                let (st, dst) = st.define(ProcTypeView::Relation(result));
                (
                    st.emit(
                        InstView::Rename {
                            dst,
                            src,
                            src_heading_id: id,
                            result_heading_id: result,
                            perm: rename_perm(source, renamed_heading, renames),
                        },
                    ),
                    dst,
                )
            },
            None => self.unlowered(),
        }
    }

    /// A relation in another nesting of its cells.
    #[verifier::opaque]
    pub open spec fn restructure(self, src: ValueId, h: HeadingView) -> (State, ValueId) {
        match self.relation_id(src) {
            Some(id) => {
                let (st, result) = self.intern(h);
                let (st, dst) = st.define(ProcTypeView::Relation(result));
                (
                    st.emit(
                        InstView::Restructure {
                            dst,
                            src,
                            src_heading_id: id,
                            result_heading_id: result,
                        },
                    ),
                    dst,
                )
            },
            None => self.unlowered(),
        }
    }

    /// A relation without tuples.
    #[verifier::opaque]
    pub open spec fn empty_relation(self, h: HeadingView) -> (State, ValueId) {
        let (st, heading_id) = self.intern(h);
        let (st, dst) = st.define(ProcTypeView::Relation(heading_id));
        (st.emit(InstView::RelationLit { dst, tuples: Seq::empty(), heading_id }), dst)
    }

    /// The value of a relvar slot.
    #[verifier::opaque]
    pub open spec fn read_slot(self, name: Name, heading_id: HeadingId) -> (State, ValueId) {
        let (st, dst) = self.define(ProcTypeView::Relation(heading_id));
        (st.emit(InstView::RelvarRead { dst, name, heading_id }), dst)
    }

    /// A text constant.
    #[verifier::opaque]
    pub open spec fn text_const(self, bytes: Seq<u8>) -> (State, ValueId) {
        self.constant(ConstView::Text(bytes), ProcTypeView::Text)
    }

    /// Two texts one behind the other, in a new text.
    #[verifier::opaque]
    pub open spec fn concat(self, lhs: ValueId, rhs: ValueId) -> (State, ValueId) {
        let (st, dst) = self.define(ProcTypeView::Text);
        let st = st.emit(
            InstView::ScalarOp {
                dst,
                op: ScalarOp::Concat,
                operand_type: ProcTypeView::Text,
                lhs,
                rhs,
            },
        );
        (st.own(dst).release_temp(lhs).release_temp(rhs), dst)
    }

    /// A character as a text; a text as itself.
    #[verifier::opaque]
    pub open spec fn coerce_to_text(self, v: ValueId) -> (State, ValueId) {
        if self.type_of(v) is Character {
            let (st, dst) = self.define(ProcTypeView::Text);
            (st.emit(InstView::CharToText { dst, src: v }).own(dst), dst)
        } else {
            (self, v)
        }
    }

    /// A scalar converted to text by a run-time function.
    #[verifier::opaque]
    pub open spec fn convert_to_text(
        self,
        name: Name,
        linkage: Name,
        params: Seq<(Name, ProcTypeView)>,
        v: ValueId,
    ) -> (State, ValueId) {
        let st = self.declare(name, linkage, params, ProcTypeView::Text);
        let (st, dst) = st.define(ProcTypeView::Text);
        let st = st.emit(
            InstView::Call {
                dst: Some(dst),
                callee: linkage,
                args: seq![v],
                return_type: ProcTypeView::Text,
            },
        );
        (st.own(dst), dst)
    }

    /// A scalar as a new text.
    #[verifier::opaque]
    pub open spec fn to_text(self, v: ValueId) -> (State, ValueId) {
        let ty = self.type_of(v);
        match self.oper("to_text"@) {
            Some(sig) => if takes_self(sig.0, ty) {
                self.call_to_text(v, sig.1)
            } else {
                self.builtin_to_text(v, ty)
            },
            None => self.builtin_to_text(v, ty),
        }
    }

    /// A value as text by the program's own operator.
    #[verifier::opaque]
    pub open spec fn call_to_text(self, v: ValueId, return_type: ProcTypeView) -> (
        State,
        ValueId,
    ) {
        let (st, dst) = self.define(return_type);
        let st = st.emit(
            InstView::Call { dst: Some(dst), callee: "to_text"@, args: seq![v], return_type },
        );
        if return_type is Text {
            (st.own(dst), dst)
        } else {
            (st, dst)
        }
    }

    /// A scalar as a new text, by the conversion of its type.
    #[verifier::opaque]
    pub open spec fn builtin_to_text(self, v: ValueId, ty: ProcTypeView) -> (State, ValueId) {
        match ty {
            ProcTypeView::Text => {
                let (st, empty) = self.text_const(Seq::empty());
                st.concat(empty, v)
            },
            ProcTypeView::Character => self.coerce_to_text(v),
            ProcTypeView::Integer => self.convert_to_text(
                "int_to_text"@,
                "coddl_int_to_text"@,
                seq![("n"@, ProcTypeView::Integer)],
                v,
            ),
            ProcTypeView::Boolean => self.convert_to_text(
                "bool_to_text"@,
                "coddl_bool_to_text"@,
                seq![("b"@, ProcTypeView::Boolean)],
                v,
            ),
            _ => self.unlowered(),
        }
    }

    /// The element of a sequence at an index.
    #[verifier::opaque]
    pub open spec fn element(self, seq: ValueId, index: ValueId, ty: ProcTypeView) -> (
        State,
        ValueId,
    ) {
        let st = self.declare(
            "coddl_seq_index"@,
            "coddl_seq_index"@,
            seq![("seq"@, ProcTypeView::Pointer), ("index"@, ProcTypeView::Integer)],
            ProcTypeView::Pointer,
        );
        let (st, record) = st.define(ProcTypeView::Pointer);
        let st = st.emit(
            InstView::Call {
                dst: Some(record),
                callee: "coddl_seq_index"@,
                args: seq![seq, index],
                return_type: ProcTypeView::Pointer,
            },
        );
        match ty {
            ProcTypeView::Tuple(h) => st.tuple_element(record, h),
            _ => st.scalar_element(record, ty),
        }
    }

    /// A tuple read from an element's record.
    #[verifier::opaque]
    pub open spec fn tuple_element(self, record: ValueId, h: HeadingView) -> (State, ValueId) {
        if lays_out(h) {
            let (st, fields) = cells_first(self, record, h, h.len());
            let (st, dst) = st.define(ProcTypeView::Tuple(h));
            (st.emit(InstView::TupleLit { dst, fields, heading: h }), dst)
        } else {
            self.unlowered()
        }
    }

    /// A scalar read from an element's record; a text is copied.
    #[verifier::opaque]
    pub open spec fn scalar_element(self, record: ValueId, ty: ProcTypeView) -> (State, ValueId) {
        let (st, dst) = self.define(ty);
        let st = st.emit(InstView::AttrLoad { dst, src: record, offset: 0, attr_type: ty });
        if ty is Text {
            (st.emit(InstView::Retain { src: dst }).own(dst), dst)
        } else {
            (st, dst)
        }
    }
}

} // verus!
