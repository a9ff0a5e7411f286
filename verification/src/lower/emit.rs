//! Emission of the instruction patterns that lowering is made of.

use crate::cut::{sources_view, ParamSource, SqlQuery, Value};
use crate::ir::{
    named_values, params_view, typed_values, Const, HeadingId, Inst, ProcType, ProcTypeView,
    ScalarOp, ValueId,
};
use crate::layout::{layout_of, lays_out, lemma_offset};
use crate::lower::kinds::{checked_layout, proc_type_from_type, same_proc_type};
use crate::lower::lowerer::Lowerer;
use crate::lower::patterns::{
    attr_place, bind_const, binds_first, cells_first, needs_release, release_first,
    release_temps_first, rename_perm, takes_self, unrenamed, unwrapped_heading, wrapped_heading,
};
use crate::lower::state::{is_heap, name_index, State};
use crate::rel_analysis::{apply_rename, renamed, renamed_attrs};
use crate::rel_expr::{named_headings, RelExpr, RelView};
use crate::text::{copy_names, name_pairs_of, names_of, same_text, Name};
use crate::types::{attr_names, attrs_view, Heading, Type};
use vstd::prelude::*;
use vstd::utf8::encode_utf8;

verus! {

/// Whether a value of the type is always on the heap.
pub fn is_heap_managed(ty: &ProcType) -> (r: bool)
    ensures
        r == is_heap(ty@),
{
    match ty {
        ProcType::Relation(_) | ProcType::Sequence(_) => true,
        _ => false,
    }
}

/// Whether the type is that of texts.
pub fn is_text(ty: &ProcType) -> (r: bool)
    ensures
        r == (ty@ is Text),
{
    match ty {
        ProcType::Text => true,
        _ => false,
    }
}

/// Whether the type is that of no value.
pub fn is_unit(ty: &ProcType) -> (r: bool)
    ensures
        r == (ty@ is Unit),
{
    match ty {
        ProcType::Unit => true,
        _ => false,
    }
}

/// A list of one parameter.
pub fn one_param(name: &str, ty: ProcType) -> (r: Vec<(String, ProcType)>)
    ensures
        params_view(r@) == seq![(name@, ty@)],
{
    let mut r: Vec<(String, ProcType)> = Vec::new();
    r.push((name.to_owned(), ty));
    assert(params_view(r@) =~= seq![(name@, ty@)]);
    r
}

/// A list of two parameters.
pub fn two_params(a: &str, a_type: ProcType, b: &str, b_type: ProcType) -> (r: Vec<
    (String, ProcType),
>)
    ensures
        params_view(r@) == seq![(a@, a_type@), (b@, b_type@)],
{
    let mut r: Vec<(String, ProcType)> = Vec::new();
    r.push((a.to_owned(), a_type));
    r.push((b.to_owned(), b_type));
    assert(params_view(r@) =~= seq![(a@, a_type@), (b@, b_type@)]);
    r
}

/// A list without parameters.
pub fn no_params() -> (r: Vec<(String, ProcType)>)
    ensures
        params_view(r@) == Seq::<(Name, ProcTypeView)>::empty(),
{
    let r: Vec<(String, ProcType)> = Vec::new();
    assert(params_view(r@) =~= Seq::empty());
    r
}

/// A list of one value.
pub fn one_value(v: ValueId) -> (r: Vec<ValueId>)
    ensures
        r@ == seq![v],
{
    let mut r: Vec<ValueId> = Vec::new();
    r.push(v);
    assert(r@ =~= seq![v]);
    r
}

/// The place of an attribute; zero when it is not there.
fn place_of(h: &Heading, name: &str) -> (r: usize)
    ensures
        r == attr_place(h@, name@),
{
    let attrs = h.attrs();
    let ghost names = attr_names(h@);
    let mut i: usize = 0;
    assert(names.skip(0) =~= names);
    while i < attrs.len()
        invariant
            i <= attrs.len(),
            attrs_view(attrs@) == h@,
            names == attr_names(h@),
            name_index(names, name@) == i + name_index(names.skip(i as int), name@),
        decreases attrs.len() - i,
    {
        assert(names.skip(i as int)[0] == attrs_view(attrs@)[i as int].0);
        if same_text(attrs[i].0.as_str(), name) {
            return i;
        }
        assert(names.skip(i as int).drop_first() =~= names.skip(i as int + 1));
        i += 1;
    }
    0
}

fn old_name(renames: &Vec<(String, String)>, new: &str) -> (r: String)
    ensures
        r@ == unrenamed(name_pairs_of(renames@), new@),
{
    let ghost pairs = name_pairs_of(renames@);
    let mut i: usize = 0;
    assert(pairs.skip(0) =~= pairs);
    while i < renames.len()
        invariant
            i <= renames.len(),
            pairs == name_pairs_of(renames@),
            unrenamed(pairs, new@) == unrenamed(pairs.skip(i as int), new@),
        decreases renames.len() - i,
    {
        assert(pairs.skip(i as int)[0] == pairs[i as int]);
        if same_text(renames[i].1.as_str(), new) {
            return renames[i].0.clone();
        }
        assert(pairs.skip(i as int).drop_first() =~= pairs.skip(i as int + 1));
        i += 1;
    }
    new.to_owned()
}

fn permutation(source: &Heading, result: &Heading, renames: &Vec<(String, String)>) -> (r: Vec<u32>)
    ensures
        r@ == rename_perm(source@, result@, name_pairs_of(renames@)),
{
    let attrs = result.attrs();
    let mut r: Vec<u32> = Vec::new();
    let mut i: usize = 0;
    while i < attrs.len()
        invariant
            i <= attrs.len(),
            attrs_view(attrs@) == result@,
            r.len() == i,
            forall|j: int|
                0 <= j < i ==> #[trigger] r@[j] == rename_perm(
                    source@,
                    result@,
                    name_pairs_of(renames@),
                )[j],
        decreases attrs.len() - i,
    {
        assert(result@[i as int] == attrs_view(attrs@)[i as int]);
        let old = old_name(renames, attrs[i].0.as_str());
        r.push(place_of(source, old.as_str()) as u32);
        i += 1;
    }
    assert(r@ =~= rename_perm(source@, result@, name_pairs_of(renames@)));
    r
}

fn rename_attrs(h: &Heading, renames: &Vec<(String, String)>) -> (r: Vec<(String, Type)>)
    ensures
        attrs_view(r@) == renamed_attrs(name_pairs_of(renames@), h@),
{
    let attrs = h.attrs();
    let ghost pairs = name_pairs_of(renames@);
    let mut r: Vec<(String, Type)> = Vec::new();
    let mut i: usize = 0;
    while i < attrs.len()
        invariant
            i <= attrs.len(),
            r.len() == i,
            attrs_view(attrs@) == h@,
            pairs == name_pairs_of(renames@),
            forall|j: int|
                0 <= j < i ==> (#[trigger] r@[j]).0@ == renamed(pairs, h@[j].0) && r@[j].1@
                    == h@[j].1,
        decreases attrs.len() - i,
    {
        assert(h@[i as int] == attrs_view(attrs@)[i as int]);
        r.push((apply_rename(renames, attrs[i].0.as_str()), attrs[i].1.clone()));
        i += 1;
    }
    assert(attrs_view(r@) =~= renamed_attrs(pairs, h@));
    r
}

/// The heading after attributes were gathered into tuples.
pub fn heading_after_wrap(h: &Heading, wraps: Vec<(String, Heading)>) -> (r: Heading)
    ensures
        r@ == wrapped_heading(h@, named_headings(wraps@)),
{
    let input = RelExpr::MaterializedRelvar { name: String::new(), heading: h.clone() };
    proof {
        assert(input@->MaterializedRelvar_name =~= Seq::empty());
        assert(input@.has_heading());
    }
    let e = RelExpr::Wrap { input: Box::new(input), wraps };
    assert(e@ == (RelView::Wrap { input: Box::new(input@), wraps: named_headings(wraps@) }));
    e.heading()
}

/// The heading after tuples were expanded into their components.
pub fn heading_after_unwrap(h: &Heading, names: &Vec<String>) -> (r: Heading)
    ensures
        r@ == unwrapped_heading(h@, names_of(names@)),
{
    let input = RelExpr::MaterializedRelvar { name: String::new(), heading: h.clone() };
    proof {
        assert(input@->MaterializedRelvar_name =~= Seq::empty());
        assert(input@.has_heading());
    }
    let copied = copy_names(names);
    let e = RelExpr::Unwrap { input: Box::new(input), names: copied };
    assert(e@ == (RelView::Unwrap { input: Box::new(input@), names: names_of(copied@) }));
    e.heading()
}

fn has_self_param(params: &Vec<(String, ProcType)>, ty: &ProcType) -> (r: bool)
    ensures
        r == takes_self(params_view(params@), ty@),
{
    let ghost ps = params_view(params@);
    let mut i: usize = 0;
    while i < params.len()
        invariant
            i <= params.len(),
            ps == params_view(params@),
            forall|j: int|
                0 <= j < i ==> !((#[trigger] ps[j]).0 == "self"@ && ps[j].1 == ty@),
        decreases params.len() - i,
    {
        if same_text(params[i].0.as_str(), "self") && same_proc_type(&params[i].1, ty) {
            assert(ps[i as int].0 == "self"@ && ps[i as int].1 == ty@);
            return true;
        }
        i += 1;
    }
    false
}

impl<const COLLECT: bool> Lowerer<COLLECT> {
    /// Stops at a form that has no lowering, with a value to go on with.
    pub fn unlowered(&mut self) -> (v: ValueId)
        ensures
            (final(self)@, v) == old(self)@.unlowered(),
    {
        reveal(State::unlowered);
        self.not_lowered();
        ValueId(0)
    }

    /// Whether a bound value is to be released when its layer ends.
    pub fn needs_scope_release(&self, v: ValueId, ty: &ProcType) -> (r: bool)
        ensures
            r == needs_release(self@, v, ty@),
    {
        is_heap_managed(ty) || (is_text(ty) && self.owns(v))
    }

    /// Releases a text that nothing else releases.
    pub fn release_temp(&mut self, v: ValueId)
        ensures
            final(self)@ == old(self)@.release_temp(v),
    {
        reveal(State::release_temp);
        if self.owns(v) && !self.is_bound(v) {
            self.emit(Inst::Release { src: v });
        }
    }

    /// Releases the texts that nothing else releases.
    pub fn release_temps(&mut self, vs: &Vec<ValueId>)
        ensures
            final(self)@ == old(self)@.release_temps(vs@),
    {
        reveal(State::release_temps);
        let ghost st = self@;
        let mut i: usize = 0;
        while i < vs.len()
            invariant
                i <= vs.len(),
                self@ == release_temps_first(st, vs@, i as nat),
            decreases vs.len() - i,
        {
            self.release_temp(vs[i]);
            i += 1;
        }
    }

    /// Releases a value that no name is bound to.
    pub fn release_unbound(&mut self, v: ValueId)
        ensures
            final(self)@ == old(self)@.release_unbound(v),
    {
        reveal(State::release_unbound);
        if !self.is_bound(v) {
            self.emit(Inst::Release { src: v });
        }
    }

    /// Releases the innermost layer's values that need it.
    pub fn release_scope(&mut self)
        ensures
            final(self)@ == old(self)@.release_scope(),
    {
        reveal(State::release_scope);
        let ghost st = self@;
        let locals = self.top_locals();
        let ghost ls = typed_values(locals@);
        let mut i: usize = 0;
        while i < locals.len()
            invariant
                i <= locals.len(),
                ls == typed_values(locals@),
                self@ == release_first(st, ls, i as nat),
            decreases locals.len() - i,
        {
            let v = locals[i].0;
            assert(ls[i as int] == (v, locals@[i as int].1@));
            if !self.is_param(v) && self.needs_scope_release(v, &locals[i].1) {
                self.emit(Inst::Release { src: v });
            }
            i += 1;
        }
    }

    fn binds_in_top(&self, v: ValueId) -> (r: bool)
        ensures
            r == self@.binds_in_top(v),
    {
        reveal(State::binds_in_top);
        let locals = self.top_locals();
        let ghost ls = typed_values(locals@);
        let mut i: usize = 0;
        while i < locals.len()
            invariant
                i <= locals.len(),
                ls == typed_values(locals@),
                ls == self@.top_locals(),
                forall|j: int| 0 <= j < i ==> (#[trigger] ls[j]).0 != v,
            decreases locals.len() - i,
        {
            if locals[i].0 == v {
                reveal(State::binds_in_top);
                assert(ls[i as int].0 == v);
                return true;
            }
            i += 1;
        }
        false
    }

    /// Retains a value that leaves the innermost layer, when the layer's end
    /// releases it.
    pub fn retain_escaping(&mut self, v: ValueId)
        ensures
            final(self)@ == old(self)@.retain_escaping(v),
    {
        reveal(State::retain_escaping);
        let ty = self.type_of(v);
        if self.binds_in_top(v) && self.needs_scope_release(v, &ty) {
            self.emit(Inst::Retain { src: v });
        }
    }

    /// Emits a constant.
    pub fn constant(&mut self, value: Const, ty: ProcType) -> (v: ValueId)
        ensures
            (final(self)@, v) == old(self)@.constant(value@, ty@),
    {
        reveal(State::constant);
        let dst = self.define(ty.clone());
        self.emit(Inst::Const { dst, value, ty });
        dst
    }

    /// Emits a call of a run-time function without arguments.
    pub fn call_runtime(&mut self, name: &str)
        ensures
            final(self)@ == old(self)@.call_runtime(name@),
    {
        reveal(State::call_runtime);
        self.declare(name, name, no_params(), ProcType::Integer);
        let dst = self.define(ProcType::Integer);
        self.emit(
            Inst::Call {
                dst: Some(dst),
                callee: name.to_owned(),
                args: Vec::new(),
                return_type: ProcType::Integer,
            },
        );
    }

    /// Emits a call that begins or commits a transaction, when there is a plan.
    pub fn bracket(&mut self, name: &str)
        ensures
            final(self)@ == old(self)@.bracket(name@),
    {
        reveal(State::bracket);
        if self.planned() {
            self.call_runtime(name);
        }
    }

    fn bind_values(&mut self, params: &Vec<ParamSource>) -> (r: Vec<(ValueId, ProcType)>)
        ensures
            (final(self)@, typed_values(r@)) == binds_first(
                old(self)@,
                sources_view(params@),
                params@.len(),
            ),
    {
        let ghost st = self@;
        let ghost ps = sources_view(params@);
        let mut out: Vec<(ValueId, ProcType)> = Vec::new();
        let mut i: usize = 0;
        assert(typed_values(out@) =~= Seq::empty());
        while i < params.len()
            invariant
                i <= params.len(),
                ps == sources_view(params@),
                (self@, typed_values(out@)) == binds_first(st, ps, i as nat),
            decreases params.len() - i,
        {
            let ghost was = typed_values(out@);
            assert(ps[i as int] == params@[i as int]@);
            match &params[i] {
                ParamSource::Value(v) => {
                    let (value, ty) = match v {
                        Value::Integer(n) => (Const::Integer(*n), ProcType::Integer),
                        Value::Text(s) => (
                            Const::Text(s.as_str().as_bytes_vec()),
                            ProcType::Text,
                        ),
                        Value::Boolean(b) => (Const::Boolean(*b), ProcType::Boolean),
                    };
                    assert((value@, ty@) == bind_const(v@));
                    let dst = self.constant(value, ty.clone());
                    let ghost seen = (dst, ty@);
                    out.push((dst, ty));
                    assert(typed_values(out@) =~= was.push(seen));
                },
                ParamSource::SlotCell { .. } => {
                    self.not_lowered();
                },
            }
            i += 1;
        }
        out
    }

    /// Emits a query.
    pub fn query(&mut self, q: &SqlQuery) -> (v: ValueId)
        ensures
            (final(self)@, v) == old(self)@.query(q@),
    {
        reveal(State::query);
        let heading_id = self.intern(&q.result_heading);
        let plan_id: u32 = self.plan(q, heading_id);
        let params = self.bind_values(&q.params);
        let dst = self.define(ProcType::Relation(heading_id));
        self.emit(Inst::Query { dst, plan_id, params, rels: Vec::new(), heading_id });
        dst
    }

    /// Emits a modification.
    pub fn dml(&mut self, q: &SqlQuery)
        ensures
            final(self)@ == old(self)@.dml(q@),
    {
        reveal(State::dml);
        let heading_id = self.intern(&q.result_heading);
        let plan_id: u32 = self.plan(q, heading_id);
        let params = self.bind_values(&q.params);
        self.emit(Inst::Dml { plan_id, params });
    }

    /// The heading's number of a relation value.
    pub fn relation_id(&self, v: ValueId) -> (r: Option<HeadingId>)
        ensures
            r == self@.relation_id(v),
    {
        reveal(State::relation_id);
        match self.type_of(v) {
            ProcType::Relation(id) => Some(id),
            _ => None,
        }
    }

    /// Emits the join of two relations.
    pub fn join(&mut self, lhs: ValueId, rhs: ValueId) -> (v: ValueId)
        ensures
            (final(self)@, v) == old(self)@.join(lhs, rhs),
    {
        reveal(State::join);
        let (l, r) = match (self.relation_id(lhs), self.relation_id(rhs)) {
            (Some(l), Some(r)) => (l, r),
            _ => {
                return self.unlowered();
            },
        };
        match self.heading_at(l).union(&self.heading_at(r)) {
            Some(h) => {
                let result = self.intern(&h);
                let dst = self.define(ProcType::Relation(result));
                self.emit(
                    Inst::Join {
                        dst,
                        lhs,
                        rhs,
                        lhs_heading_id: l,
                        rhs_heading_id: r,
                        result_heading_id: result,
                    },
                );
                dst
            },
            None => self.unlowered(),
        }
    }

    /// Emits the union of two relations.
    pub fn unite(&mut self, lhs: ValueId, rhs: ValueId) -> (v: ValueId)
        ensures
            (final(self)@, v) == old(self)@.unite(lhs, rhs),
    {
        reveal(State::unite);
        match self.relation_id(lhs) {
            Some(id) => {
                let dst = self.define(ProcType::Relation(id));
                self.emit(Inst::Union { dst, lhs, rhs, heading_id: id });
                dst
            },
            None => self.unlowered(),
        }
    }

    /// Emits the difference of two relations.
    pub fn subtract(&mut self, lhs: ValueId, rhs: ValueId) -> (v: ValueId)
        ensures
            (final(self)@, v) == old(self)@.subtract(lhs, rhs),
    {
        reveal(State::subtract);
        match self.relation_id(lhs) {
            Some(id) => {
                let dst = self.define(ProcType::Relation(id));
                self.emit(Inst::Minus { dst, lhs, rhs, heading_id: id });
                dst
            },
            None => self.unlowered(),
        }
    }

    /// Emits the transitive closure of a relation.
    pub fn close(&mut self, src: ValueId) -> (v: ValueId)
        ensures
            (final(self)@, v) == old(self)@.close(src),
    {
        reveal(State::close);
        match self.relation_id(src) {
            Some(id) => {
                let dst = self.define(ProcType::Relation(id));
                self.emit(Inst::TClose { dst, src, heading_id: id });
                dst
            },
            None => self.unlowered(),
        }
    }

    /// Emits a relation narrowed to the listed attributes, or to all but those.
    pub fn project(&mut self, src: ValueId, listed: &Vec<String>, all_but: bool) -> (v: ValueId)
        ensures
            (final(self)@, v) == old(self)@.project(src, names_of(listed@), all_but),
    {
        reveal(State::project);
        match self.relation_id(src) {
            Some(id) => {
                let h = self.heading_at(id);
                let kept = if all_but {
                    h.without(listed)
                } else {
                    h.within(listed)
                };
                let result = self.intern(&Heading::new(kept));
                let dst = self.define(ProcType::Relation(result));
                self.emit(
                    Inst::Project { dst, src, src_heading_id: id, result_heading_id: result },
                );
                dst
            },
            None => self.unlowered(),
        }
    }

    /// Emits a relation with attributes renamed.
    pub fn rename(&mut self, src: ValueId, renames: &Vec<(String, String)>) -> (v: ValueId)
        ensures
            (final(self)@, v) == old(self)@.rename(src, name_pairs_of(renames@)),
    {
        reveal(State::rename);
        match self.relation_id(src) {
            Some(id) => {
                let source = self.heading_at(id);
                let renamed_heading = Heading::new(rename_attrs(&source, renames));
                let perm = permutation(&source, &renamed_heading, renames);
                let result = self.intern(&renamed_heading);
                let dst = self.define(ProcType::Relation(result));
                self.emit(
                    Inst::Rename { dst, src, src_heading_id: id, result_heading_id: result, perm },
                );
                dst
            },
            None => self.unlowered(),
        }
    }

    /// Emits a relation in another nesting of its cells.
    pub fn restructure(&mut self, src: ValueId, h: &Heading) -> (v: ValueId)
        ensures
            (final(self)@, v) == old(self)@.restructure(src, h@),
    {
        reveal(State::restructure);
        match self.relation_id(src) {
            Some(id) => {
                let result = self.intern(h);
                let dst = self.define(ProcType::Relation(result));
                self.emit(
                    Inst::Restructure { dst, src, src_heading_id: id, result_heading_id: result },
                );
                dst
            },
            None => self.unlowered(),
        }
    }

    /// Emits a relation without tuples.
    pub fn empty_relation(&mut self, h: &Heading) -> (v: ValueId)
        ensures
            (final(self)@, v) == old(self)@.empty_relation(h@),
    {
        reveal(State::empty_relation);
        let heading_id = self.intern(h);
        let dst = self.define(ProcType::Relation(heading_id));
        self.emit(Inst::RelationLit { dst, tuples: Vec::new(), heading_id });
        dst
    }

    /// Emits the value of a relvar slot.
    pub fn read_slot(&mut self, name: &str, heading_id: HeadingId) -> (v: ValueId)
        ensures
            (final(self)@, v) == old(self)@.read_slot(name@, heading_id),
    {
        reveal(State::read_slot);
        let dst = self.define(ProcType::Relation(heading_id));
        self.emit(Inst::RelvarRead { dst, name: name.to_owned(), heading_id });
        dst
    }

    /// Emits a text constant.
    pub fn text_const(&mut self, bytes: Vec<u8>) -> (v: ValueId)
        ensures
            (final(self)@, v) == old(self)@.text_const(bytes@),
    {
        reveal(State::text_const);
        self.constant(Const::Text(bytes), ProcType::Text)
    }

    /// Emits two texts one behind the other, in a new text.
    pub fn concat(&mut self, lhs: ValueId, rhs: ValueId) -> (v: ValueId)
        ensures
            (final(self)@, v) == old(self)@.concat(lhs, rhs),
    {
        reveal(State::concat);
        let dst = self.define(ProcType::Text);
        self.emit(
            Inst::ScalarOp {
                dst,
                op: ScalarOp::Concat,
                operand_type: ProcType::Text,
                lhs,
                rhs,
            },
        );
        self.own(dst);
        self.release_temp(lhs);
        self.release_temp(rhs);
        dst
    }

    /// Emits a character as a text; a text stays itself.
    pub fn coerce_to_text(&mut self, v: ValueId) -> (r: ValueId)
        ensures
            (final(self)@, r) == old(self)@.coerce_to_text(v),
    {
        reveal(State::coerce_to_text);
        match self.type_of(v) {
            ProcType::Character => {
                let dst = self.define(ProcType::Text);
                self.emit(Inst::CharToText { dst, src: v });
                self.own(dst);
                dst
            },
            _ => v,
        }
    }

    fn convert_to_text(
        &mut self,
        name: &str,
        linkage: &str,
        params: Vec<(String, ProcType)>,
        v: ValueId,
    ) -> (r: ValueId)
        ensures
            (final(self)@, r) == old(self)@.convert_to_text(
                name@,
                linkage@,
                params_view(params@),
                v,
            ),
    {
        reveal(State::convert_to_text);
        self.declare(name, linkage, params, ProcType::Text);
        let dst = self.define(ProcType::Text);
        self.emit(
            Inst::Call {
                dst: Some(dst),
                callee: linkage.to_owned(),
                args: one_value(v),
                return_type: ProcType::Text,
            },
        );
        self.own(dst);
        dst
    }

    /// Emits a scalar as a new text.
    pub fn to_text(&mut self, v: ValueId) -> (r: ValueId)
        ensures
            (final(self)@, r) == old(self)@.to_text(v),
    {
        reveal(State::to_text);
        let ty = self.type_of(v);
        if let Some(sig) = self.oper("to_text") {
            if has_self_param(&sig.params, &ty) {
                return self.call_to_text(v, sig.return_type);
            }
        }
        self.builtin_to_text(v, &ty)
    }

    fn call_to_text(&mut self, v: ValueId, return_type: ProcType) -> (r: ValueId)
        ensures
            (final(self)@, r) == old(self)@.call_to_text(v, return_type@),
    {
        reveal(State::call_to_text);
        let dst = self.define(return_type.clone());
        let text = is_text(&return_type);
        self.emit(
            Inst::Call {
                dst: Some(dst),
                callee: "to_text".to_owned(),
                args: one_value(v),
                return_type,
            },
        );
        if text {
            self.own(dst);
        }
        dst
    }

    fn builtin_to_text(&mut self, v: ValueId, ty: &ProcType) -> (r: ValueId)
        ensures
            (final(self)@, r) == old(self)@.builtin_to_text(v, ty@),
    {
        reveal(State::builtin_to_text);
        match ty {
            ProcType::Text => {
                let empty = self.text_const(Vec::new());
                self.concat(empty, v)
            },
            ProcType::Character => self.coerce_to_text(v),
            ProcType::Integer => self.convert_to_text(
                "int_to_text",
                "coddl_int_to_text",
                one_param("n", ProcType::Integer),
                v,
            ),
            ProcType::Boolean => self.convert_to_text(
                "bool_to_text",
                "coddl_bool_to_text",
                one_param("b", ProcType::Boolean),
                v,
            ),
            _ => self.unlowered(),
        }
    }

    /// Emits the element of a sequence at an index.
    pub fn element(&mut self, seq: ValueId, index: ValueId, ty: &ProcType) -> (v: ValueId)
        ensures
            (final(self)@, v) == old(self)@.element(seq, index, ty@),
    {
        reveal(State::element);
        let params = two_params("seq", ProcType::Pointer, "index", ProcType::Integer);
        self.declare("coddl_seq_index", "coddl_seq_index", params, ProcType::Pointer);
        let record = self.define(ProcType::Pointer);
        let mut args: Vec<ValueId> = Vec::new();
        args.push(seq);
        args.push(index);
        assert(args@ =~= seq![seq, index]);
        self.emit(
            Inst::Call {
                dst: Some(record),
                callee: "coddl_seq_index".to_owned(),
                args,
                return_type: ProcType::Pointer,
            },
        );
        match ty {
            ProcType::Tuple(h) => self.tuple_element(record, h),
            _ => self.scalar_element(record, ty),
        }
    }

    fn tuple_element(&mut self, record: ValueId, h: &Heading) -> (v: ValueId)
        ensures
            (final(self)@, v) == old(self)@.tuple_element(record, h@),
    {
        reveal(State::tuple_element);
        let layout = match checked_layout(h) {
            Some(layout) => layout,
            None => {
                return self.unlowered();
            },
        };
        let ghost st = self@;
        let attrs = h.attrs();
        let mut fields: Vec<(String, ValueId)> = Vec::new();
        let mut i: usize = 0;
        proof {
            assert(named_values(fields@) =~= Seq::empty());
            assert(layout@.attrs.len() == h@.len());
        }
        while i < attrs.len()
            invariant
                i <= attrs.len(),
                attrs_view(attrs@) == h@,
                lays_out(h@),
                layout@ == layout_of(h@),
                layout.attrs.len() == attrs.len(),
                (self@, named_values(fields@)) == cells_first(st, record, h@, i as nat),
            decreases attrs.len() - i,
        {
            let ghost was = named_values(fields@);
            let name = attrs[i].0.as_str();
            proof {
                assert(h@[i as int] == attrs_view(attrs@)[i as int]);
                assert(layout@.attrs[i as int].offset == layout.attrs@[i as int].offset);
                lemma_offset(h@, i as int);
            }
            let ty = match h.lookup(name) {
                Some(t) => proc_type_from_type(t),
                None => None,
            };
            match ty {
                Some(ty) => {
                    let cell = self.define(ty.clone());
                    self.emit(
                        Inst::AttrLoad {
                            dst: cell,
                            src: record,
                            offset: layout.attrs[i].offset,
                            attr_type: ty,
                        },
                    );
                    fields.push((name.to_owned(), cell));
                    assert(named_values(fields@) =~= was.push((name@, cell)));
                },
                None => {
                    self.not_lowered();
                },
            }
            i += 1;
        }
        let dst = self.define(ProcType::Tuple(h.clone()));
        self.emit(Inst::TupleLit { dst, fields, heading: h.clone() });
        dst
    }

    fn scalar_element(&mut self, record: ValueId, ty: &ProcType) -> (v: ValueId)
        ensures
            (final(self)@, v) == old(self)@.scalar_element(record, ty@),
    {
        reveal(State::scalar_element);
        let dst = self.define(ty.clone());
        self.emit(Inst::AttrLoad { dst, src: record, offset: 0, attr_type: ty.clone() });
        if is_text(ty) {
            self.emit(Inst::Retain { src: dst });
            self.own(dst);
        }
        dst
    }
}

} // verus!
