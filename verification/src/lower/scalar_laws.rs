//! Scalar expressions are computed as they are written.

use crate::ast::{BinaryOp, Expr, ExprKind, Literal};
use crate::ir::{ConstView, InstView, ProcTypeView, ScalarOp, ValueId};
use crate::literals::{char_value, integer_value, string_value};
use crate::lower::lowering::{lowered, lowered_here};
use crate::lower::meaning::{
    binary_value, const_value, inst_holds, is_scalar, is_scalar_inst, is_scalar_op, machine_value, reads, reckons, value_of, Codes, Machine,
    Site,
};
use crate::lower::relational::built;
use crate::lower::state::State;
use crate::lower::steps::{
    attempted, guarded, literal_lowered, name_lowered, operator_of, scalar_applied,
};
use crate::lower::valid::begins;
use crate::text::Name;
use vstd::prelude::*;

verus! {

/// Whether lowering went on inside the same block, with the same bindings.
pub open spec fn stays(a: State, b: State) -> bool {
    &&& b.frame.scopes == a.frame.scopes
    &&& b.frame.blocks == a.frame.blocks
    &&& b.frame.current == a.frame.current
    &&& b.frame.params == a.frame.params
    &&& b.frame.next_block == a.frame.next_block
    &&& b.frame.outer == a.frame.outer
    &&& b.env == a.env
    &&& begins(b.frame.insts, a.frame.insts)
    &&& b.stop is None ==> a.stop is None
}

/// What is obeyed in the end was obeyed before.
pub proof fn lemma_obeyed_before(site: Site, m: Machine, s: Seq<InstView>, t: Seq<InstView>)
    requires
        begins(t, s),
        reckons(site, m, t),
    ensures
        reckons(site, m, s),
{
    assert forall|i: int| 0 <= i < s.len() && is_scalar_inst(
        #[trigger] s[i],
    ) implies inst_holds(site, m, s[i]) by {
        assert(t[i] == s[i]);
    }
}

/// A new value of a type, and the instruction that assigns it.
pub proof fn lemma_define_emit(st: State, ty: ProcTypeView, inst: InstView)
    ensures
        stays(st, st.define(ty).0),
        stays(st, st.define(ty).0.emit(inst)),
        st.define(ty).0.emit(inst).frame.insts.last() == inst,
        st.define(ty).0.emit(inst).frame.insts.len() > 0,
{
    reveal(State::define);
    reveal(State::halted);
    reveal(State::emit);
}

pub proof fn lemma_release_temp(st: State, v: ValueId)
    ensures
        stays(st, st.release_temp(v)),
{
    reveal(State::release_temp);
    reveal(State::emit);
}

pub proof fn lemma_own(st: State, v: ValueId)
    ensures
        stays(st, st.own(v)),
{
    reveal(State::own);
}

/// What is the last instruction of a state stays among those of later ones.
pub proof fn lemma_last_obeyed(site: Site, m: Machine, a: State, b: State)
    requires
        stays(a, b),
        a.frame.insts.len() > 0,
        is_scalar_inst(a.frame.insts.last()),
        reckons(site, m, b.frame.insts),
    ensures
        inst_holds(site, m, a.frame.insts.last()),
{
    assert(b.frame.insts[a.frame.insts.len() - 1] == a.frame.insts.last());
}

/// A constant holds its value.
pub proof fn lemma_constant(site: Site, m: Machine, st: State, k: ConstView, ty: ProcTypeView)
    ensures
        ({
            let (out, v) = st.constant(k, ty);
            &&& stays(st, out)
            &&& reckons(site, m, out.frame.insts) ==> (m.cell)(v)
                == const_value(site.codes, k)
        }),
{
    reveal(State::constant);
    let (mid, dst) = st.define(ty);
    let inst = InstView::Const { dst, value: k, ty };
    lemma_define_emit(st, ty, inst);
    let out = mid.emit(inst);
    if reckons(site, m, out.frame.insts) {
        lemma_last_obeyed(site, m, out, out);
    }
}

proof fn lemma_text(site: Site, m: Machine, st: State, v: ValueId)
    ensures
        ({
            let (out, t) = st.coerce_to_text(v);
            &&& stays(st, out)
            &&& reckons(site, m, out.frame.insts) ==> (m.cell)(t) == (m.cell)(v)
        }),
{
    reveal(State::coerce_to_text);
    if st.type_of(v) is Character {
        let (mid, dst) = st.define(ProcTypeView::Text);
        let inst = InstView::CharToText { dst, src: v };
        lemma_define_emit(st, ProcTypeView::Text, inst);
        let out = mid.emit(inst);
        lemma_own(out, dst);
        if reckons(site, m, out.own(dst).frame.insts) {
            lemma_last_obeyed(site, m, out, out.own(dst));
        }
    }
}

pub proof fn lemma_concat(site: Site, m: Machine, st: State, l: ValueId, r: ValueId)
    ensures
        ({
            let (out, v) = st.concat(l, r);
            &&& stays(st, out)
            &&& reckons(site, m, out.frame.insts) ==> (m.cell)(v) == (site.codes.concat)(
                (m.cell)(l),
                (m.cell)(r),
            )
        }),
{
    reveal(State::concat);
    let (mid, dst) = st.define(ProcTypeView::Text);
    let inst = InstView::ScalarOp {
        dst,
        op: ScalarOp::Concat,
        operand_type: ProcTypeView::Text,
        lhs: l,
        rhs: r,
    };
    lemma_define_emit(st, ProcTypeView::Text, inst);
    let a = mid.emit(inst);
    lemma_own(a, dst);
    let b = a.own(dst);
    lemma_release_temp(b, l);
    lemma_release_temp(b.release_temp(l), r);
    let out = b.release_temp(l).release_temp(r);
    if reckons(site, m, out.frame.insts) {
        lemma_last_obeyed(site, m, a, out);
    }
}

/// An operator on two operands computes the operator of their values.
pub proof fn lemma_applied(
    site: Site,
    m: Machine,
    st: State,
    op: ScalarOp,
    l: ValueId,
    r: ValueId,
)
    ensures
        ({
            let (out, v) = scalar_applied(st, op, l, r);
            &&& stays(st, out)
            &&& reckons(site, m, out.frame.insts) ==> (m.cell)(v) == machine_value(
                site.codes,
                op,
                (m.cell)(l),
                (m.cell)(r),
            )
        }),
{
    reveal(scalar_applied);
    if op == ScalarOp::Concat {
        lemma_text(site, m, st, l);
        let (a, x) = st.coerce_to_text(l);
        lemma_text(site, m, a, r);
        let (b, y) = a.coerce_to_text(r);
        lemma_concat(site, m, b, x, y);
        let (out, v) = b.concat(x, y);
        if reckons(site, m, out.frame.insts) {
            lemma_obeyed_before(site, m, b.frame.insts, out.frame.insts);
            lemma_obeyed_before(site, m, a.frame.insts, out.frame.insts);
        }
    } else {
        let (operand_type, result) = if crate::lower::steps::is_arithmetic(op) {
            (ProcTypeView::Integer, ProcTypeView::Integer)
        } else {
            (st.type_of(l), ProcTypeView::Boolean)
        };
        let (mid, dst) = st.define(result);
        let inst = InstView::ScalarOp { dst, op, operand_type, lhs: l, rhs: r };
        lemma_define_emit(st, result, inst);
        let a = mid.emit(inst);
        lemma_release_temp(a, l);
        lemma_release_temp(a.release_temp(l), r);
        let out = a.release_temp(l).release_temp(r);
        if reckons(site, m, out.frame.insts) {
            lemma_last_obeyed(site, m, a, out);
        }
    }
}

/// Whether every name that an expression reads is bound to a value.
pub open spec fn is_readable(st: State, e: Expr) -> bool {
    forall|n: Name| #[trigger] reads(e, n) ==> st.local(n) is Some && st.alias(n) is None
}

/// The values that names are bound to.
pub open spec fn bound_values(st: State, m: Machine) -> spec_fn(Name) -> int {
    |n: Name|
        match st.local(n) {
            Some(b) => (m.cell)(b.0),
            None => 0,
        }
}

/// A scalar operator of the language has the instruction that computes it.
pub proof fn law_operators_have_their_instructions(c: Codes, op: BinaryOp, a: int, b: int)
    requires
        is_scalar_op(op),
    ensures
        operator_of(op) is Some,
        machine_value(c, operator_of(op)->0, a, b) == binary_value(c, op, a, b),
{
}

/// A scalar expression is computed as it is written: whatever values names are bound
/// to, the value that holds the expression's result is what the expression's operators
/// make of them. Nothing but the block's instructions grows.
pub proof fn law_scalars_are_computed(site: Site, m: Machine, st: State, e: Expr)
    requires
        is_scalar(e),
        is_readable(st, e),
    ensures
        ({
            let (out, v) = lowered(st, e);
            &&& stays(st, out)
            &&& reckons(site, m, out.frame.insts) ==> (m.cell)(v) == value_of(
                site.codes,
                e,
                bound_values(st, m),
            )
        }),
    decreases e,
{
    assert(built(st, e) is None) by {
        match e.kind {
            ExprKind::NameRef(name) => {
                assert(reads(e, name@));
            },
            _ => {},
        }
    }
    assert(attempted(st, e) == (st, None::<ValueId>)) by {
        reveal(attempted);
    }
    assert(guarded(st, e) == st) by {
        reveal(guarded);
    }
    assert(lowered(st, e) == lowered_here(st, e));
    let (out, v) = lowered(st, e);
    match e.kind {
        ExprKind::Literal(l) => {
            reveal(literal_lowered);
            match l {
                Literal::Integer(text) => {
                    let k = ConstView::Integer(integer_value(text@)->0);
                    lemma_constant(site, m, st, k, ProcTypeView::Integer);
                },
                Literal::Str(text) => {
                    let k = ConstView::Text(vstd::utf8::encode_utf8(string_value(text@)->0));
                    lemma_constant(site, m, st, k, ProcTypeView::Text);
                },
                Literal::Char(text) => {
                    let k = ConstView::Character(char_value(text@)->0);
                    lemma_constant(site, m, st, k, ProcTypeView::Character);
                },
                _ => {},
            }
        },
        ExprKind::BoolLit(b) => {
            lemma_constant(site, m, st, ConstView::Boolean(b), ProcTypeView::Boolean);
        },
        ExprKind::NameRef(name) => {
            reveal(name_lowered);
            assert(reads(e, name@));
        },
        ExprKind::Binary { op, lhs, rhs } => {
            assert forall|n: Name| #[trigger] reads(*lhs, n) implies st.local(n) is Some
                && st.alias(n) is None by {
                assert(reads(e, n));
            }
            assert forall|n: Name| #[trigger] reads(*rhs, n) implies st.local(n) is Some
                && st.alias(n) is None by {
                assert(reads(e, n));
            }
            law_scalars_are_computed(site, m, st, *lhs);
            let (a, l) = lowered(st, *lhs);
            lemma_same_names(st, a);
            law_scalars_are_computed(site, m, a, *rhs);
            let (b, r) = lowered(a, *rhs);
            assert(bound_values(a, m) =~= bound_values(st, m));
            law_operators_have_their_instructions(site.codes, op, (m.cell)(l), (m.cell)(r));
            lemma_applied(site, m, b, operator_of(op)->0, l, r);
            if reckons(site, m, out.frame.insts) {
                lemma_obeyed_before(site, m, b.frame.insts, out.frame.insts);
                lemma_obeyed_before(site, m, a.frame.insts, b.frame.insts);
            }
        },
        _ => {},
    }
}

/// With the same bindings, names stand for the same values.
pub proof fn lemma_same_names(a: State, b: State)
    requires
        b.frame.scopes == a.frame.scopes,
    ensures
        forall|n: Name| #[trigger] b.local(n) == a.local(n),
        forall|n: Name| #[trigger] b.alias(n) == a.alias(n),
{
    reveal(State::local);
    reveal(State::alias);
}

} // verus!
