//! Updates, deletions and insertions leave a private relvar with the rows that they
//! are written to leave.

use crate::ast::{BinaryOp, Expr, ExprKind, Stmt};
use crate::ir::{FunctionView, HeadingId, InstView, ProcTypeView, TerminatorView, ValueId};
use crate::layout::record_bytes;
use crate::lower::condition_laws::{cells_of, is_true_of};
use crate::lower::kinds::loaded_type;
use crate::lower::lowering::{
    delete_lowered, extended, insert_lowered, lowered, overwritten, truncate_lowered,
    update_lowered, where_lowered,
};
use crate::lower::meaning::{
    answers, heading_of, holds_record, inst_holds, is_scalar, is_straight, obeys, reads, reckons, rows_are,
    tests_run, value_of, Codes, Machine, Site,
};
use crate::lower::relational::{
    attr_ref, built, conjuncts_of, restricted, sub_keep, sub_names,
};
use crate::lower::scalar_laws::{
    bound_values, is_readable, law_scalars_are_computed, lemma_same_names, stays,
};
use crate::lower::state::{
    alias_layers, find_in, keys_of, last_layer, lemma_name_index, local_layers, name_index,
    names_in, put_in, Bound, State,
};
use crate::lower::steps::{
    attempted, guarded, loads_first, name_lowered, offered, operand_guarded, stored,
};
use crate::lower::valid::forms::lemma_lowered;
use crate::lower::valid::primitives::{
    group_runs, lemma_begin_body, lemma_enter, lemma_take_param, lemma_where_name, reaches,
};
use crate::lower::valid::steps::lemma_loads_first;
use crate::lower::valid::{begins, grows, is_value, runs, sound};
use crate::rel_expr::{PredicateView, RelView, StorageOrigin};
use crate::rel_meaning::Row;
use crate::text::Name;
use crate::types::{attr_names, HeadingView};
use vstd::prelude::*;

verus! {

proof fn lemma_index_push(k: Seq<Name>, name: Name, n: Name)
    ensures
        name_index(k.push(name), n) == if name_index(k, n) < k.len() {
            name_index(k, n)
        } else if n == name {
            k.len()
        } else {
            k.len() + 1
        },
    decreases k.len(),
{
    reveal_with_fuel(name_index, 3);
    if k.len() > 0 {
        assert(k.push(name).drop_first() =~= k.drop_first().push(name));
        lemma_index_push(k.drop_first(), name, n);
        lemma_name_index(k.drop_first(), n);
    } else {
        assert(k.push(name).drop_first() =~= k);
    }
}

/// What is found after something was put under a name.
pub proof fn lemma_find_put(s: Seq<(Name, Bound)>, name: Name, x: Bound, n: Name)
    ensures
        find_in(put_in(s, name, x), n) == if n == name {
            Some(x)
        } else {
            find_in(s, n)
        },
{
    let k = keys_of(s);
    lemma_name_index(k, name);
    lemma_name_index(k, n);
    if name_index(k, name) < s.len() {
        assert(keys_of(put_in(s, name, x)) =~= k);
    } else {
        assert(keys_of(put_in(s, name, x)) =~= k.push(name));
        lemma_index_push(k, name, n);
    }
}

/// Whether a function has one layer of bindings, without relational expressions.
spec fn is_flat(st: State) -> bool {
    st.frame.scopes.len() == 1 && st.frame.scopes[0].aliases.len() == 0
}

/// In one layer a name is bound as the layer says.
proof fn lemma_flat(st: State, n: Name)
    requires
        is_flat(st),
    ensures
        st.local(n) == find_in(st.frame.scopes[0].locals, n),
        st.alias(n) is None,
{
    reveal(State::local);
    reveal(State::alias);
    reveal_with_fuel(last_layer, 2);
    let keys = keys_of(st.frame.scopes[0].locals);
    lemma_name_index(keys, n);
    assert(local_layers(st.frame.scopes).last() == keys);
    assert(alias_layers(st.frame.scopes).last() =~= Seq::empty());
    assert(local_layers(st.frame.scopes).drop_last().len() == 0);
    assert(alias_layers(st.frame.scopes).drop_last().len() == 0);
}

/// Whether every name is bound to the row's value under it.
spec fn holds_cells(m: Machine, st: State, r: Row) -> bool {
    forall|n: Name|
        (#[trigger] find_in(st.frame.scopes[0].locals, n)) matches Some(b) ==> (m.cell)(b.0) == r[n]
}

/// The cells of a helper's record, loaded under the names of the attributes.
proof fn lemma_loads(
    site: Site,
    m: Machine,
    st: State,
    record: ValueId,
    h: HeadingView,
    n: nat,
    r: Row,
)
    requires
        is_flat(st),
        n <= h.len(),
        st.frame.scopes[0].locals.len() == 0,
    ensures
        ({
            let out = loads_first(st, record, h, n).0;
            &&& is_flat(out)
            &&& out.frame.blocks == st.frame.blocks
            &&& out.frame.current == st.frame.current
            &&& out.frame.params == st.frame.params
            &&& out.env == st.env
            &&& out.functions == st.functions
            &&& out.headings == st.headings
            &&& begins(out.frame.insts, st.frame.insts)
            &&& out.stop is None ==> st.stop is None
            &&& out.stop is None ==> forall|i: int|
                0 <= i < n ==> find_in(out.frame.scopes[0].locals, (#[trigger] h[i]).0) is Some
            &&& obeys(site, m, out.frame.insts) && holds_record(m, record, h, r) ==> holds_cells(
                m,
                out,
                r,
            )
        }),
    decreases n,
{
    if n > 0 {
        lemma_loads(site, m, st, record, h, (n - 1) as nat, r);
        let (before, _) = loads_first(st, record, h, (n - 1) as nat);
        reveal(State::halted);
        if let Some(ty) = loaded_type(h[n - 1].1) {
            reveal(State::define);
            reveal(State::emit);
            reveal(State::bind);
            let (mid, dst) = before.define(ty);
            let inst = InstView::AttrLoad {
                dst,
                src: record,
                offset: record_bytes(h.take(n - 1))->0 as u32,
                attr_type: ty,
            };
            let after = mid.emit(inst);
            let out = after.bind(h[n - 1].0, dst, ty);
            let (old_locals, locals) = (
                before.frame.scopes[0].locals,
                out.frame.scopes[0].locals,
            );
            assert(locals == put_in(old_locals, h[n - 1].0, (dst, ty)));
            assert forall|x: Name| #[trigger]
                find_in(locals, x) == if x == h[n - 1].0 {
                    Some((dst, ty))
                } else {
                    find_in(old_locals, x)
                } by {
                lemma_find_put(old_locals, h[n - 1].0, (dst, ty), x);
            }
            if obeys(site, m, out.frame.insts) && holds_record(m, record, h, r) {
                let s = out.frame.insts;
                assert(obeys(site, m, before.frame.insts)) by {
                    assert forall|i: int| 0 <= i < before.frame.insts.len() implies inst_holds(
                        site,
                        m,
                        #[trigger] before.frame.insts[i],
                    ) by {
                        assert(s[i] == before.frame.insts[i]);
                    }
                }
                assert(s[s.len() - 1] == inst);
                assert(inst_holds(site, m, inst));
                assert(h.take(n - 1) == h.take(n - 1));
                assert((m.cell)(dst) == r[h[n - 1].0]);
            }
        }
    } else {
        assert forall|x: Name| (#[trigger] find_in(st.frame.scopes[0].locals, x)) is None by {
            lemma_name_index(keys_of(st.frame.scopes[0].locals), x);
        }
    }
}

/// A scalar expression's value depends on the names that it reads alone.
proof fn lemma_value_by_names(
    c: Codes,
    e: Expr,
    f: spec_fn(Name) -> int,
    g: spec_fn(Name) -> int,
)
    requires
        forall|n: Name| #[trigger] reads(e, n) ==> f(n) == g(n),
    ensures
        value_of(c, e, f) == value_of(c, e, g),
    decreases e,
{
    match e.kind {
        ExprKind::NameRef(name) => {
            assert(reads(e, name@));
        },
        ExprKind::Binary { op, lhs, rhs } => {
            assert forall|n: Name| #[trigger] reads(*lhs, n) implies f(n) == g(n) by {
                assert(reads(e, n));
            }
            assert forall|n: Name| #[trigger] reads(*rhs, n) implies f(n) == g(n) by {
                assert(reads(e, n));
            }
            lemma_value_by_names(c, *lhs, f, g);
            lemma_value_by_names(c, *rhs, f, g);
        },
        _ => {},
    }
}

/// Whether a name stands for a private relvar of that heading.
pub open spec fn is_private(st: State, name: Name, id: HeadingId) -> bool {
    &&& st.alias(name) is None
    &&& st.local(name) is None
    &&& st.public(name) is None
    &&& st.private(name) == Some(id)
}

proof fn lemma_private_stays(a: State, b: State, name: Name, id: HeadingId)
    requires
        stays(a, b),
        is_private(a, name, id),
    ensures
        is_private(b, name, id),
{
    lemma_same_names(a, b);
    reveal(State::public);
    reveal(State::private);
}

/// A restriction of a private relvar is evaluated in-process.
proof fn lemma_restricted_origin(input: RelView, preds: Seq<PredicateView>)
    requires
        input.origin() == StorageOrigin::Materialized,
    ensures
        restricted(input, preds).origin() == StorageOrigin::Materialized,
    decreases preds.len(),
{
    if preds.len() > 0 {
        lemma_restricted_origin(input, preds.drop_last());
    }
}

/// A private relvar is read.
proof fn lemma_read(site: Site, m: Machine, st: State, e: Expr, id: HeadingId)
    requires
        attr_ref(e) is Some,
        is_private(st, attr_ref(e)->0, id),
    ensures
        ({
            let (out, v) = lowered(st, e);
            &&& stays(st, out)
            &&& out.functions == st.functions
            &&& out.headings == st.headings
            &&& out.stop is None ==> out.type_of(v) == ProcTypeView::Relation(id)
            &&& obeys(site, m, out.frame.insts) ==> forall|r: Row| #[trigger]
                (m.row)(v, r) == (site.slot)(attr_ref(e)->0, r)
        }),
{
    let name = attr_ref(e)->0;
    assert(built(st, e)->0.origin() == StorageOrigin::Materialized);
    assert(attempted(st, e) == (st, None::<ValueId>)) by {
        reveal(attempted);
        reveal(offered);
    }
    assert(guarded(st, e) == st) by {
        reveal(guarded);
    }
    reveal(name_lowered);
    reveal(State::use_private);
    reveal(State::read_slot);
    reveal(State::define);
    reveal(State::halted);
    reveal(State::emit);
    reveal(State::type_of);
    let (out, v) = lowered(st, e);
    let inst = InstView::RelvarRead { dst: v, name, heading_id: id };
    assert(out.frame.insts[out.frame.insts.len() - 1] == inst);
    assert(stays(st, out));
    assert(out.functions == st.functions && out.headings == st.headings);
    assert(out.stop is None ==> out.type_of(v) == ProcTypeView::Relation(id));
    if obeys(site, m, out.frame.insts) {
        assert(inst_holds(site, m, inst));
        assert(rows_are(m, v, |r: Row| (site.slot)(name, r)));
    }
}

/// Whether an expression restricts the relvar of that name.
pub open spec fn restricts(e: Expr, name: Name) -> bool {
    e.kind matches ExprKind::Binary { op, lhs, .. } && op == BinaryOp::Where && attr_ref(*lhs)
        == Some(name)
}

/// The condition of a restriction.
pub open spec fn condition_of(e: Expr) -> Expr {
    match e.kind {
        ExprKind::Binary { rhs, .. } => *rhs,
        _ => e,
    }
}

/// Whether the condition of a restriction is a scalar one on the relvar's attributes.
pub open spec fn tests_attributes(p: Expr, h: HeadingView) -> bool {
    is_scalar(p) && forall|n: Name| #[trigger] reads(p, n) ==> attr_names(h).contains(n)
}

/// Whether the code around is what the program makes: the headings, and predicate
/// functions that accept what running them gives.
pub open spec fn is_around(site: Site, st: State) -> bool {
    begins(site.headings, st.headings) && tests_run(site, st.functions)
}

/// A predicate function begun, with its record's cells loaded.
spec fn predicate_begun(outer: State, h: HeadingView) -> State {
    let (inner, record) = outer.enter().take_param(ProcTypeView::Pointer);
    loads_first(inner.begin_body(), record, h, h.len()).0
}

/// A predicate function ended.
spec fn predicate_ended(outer: State, h: HeadingView, p: Expr) -> State {
    let (inner, accepted) = lowered(predicate_begun(outer, h), p);
    inner.release_deferred().finish_block(TerminatorView::Return(Some(accepted)))
}

proof fn lemma_begun(site: Site, m: Machine, outer: State, h: HeadingView, r: Row)
    ensures
        ({
            let out = predicate_begun(outer, h);
            &&& is_flat(out)
            &&& out.frame.blocks.len() == 0
            &&& out.env == outer.env
            &&& out.functions == outer.functions
            &&& out.headings == outer.headings
            &&& out.stop is None ==> outer.stop is None
            &&& out.stop is None ==> forall|n: Name|
                attr_names(h).contains(n) ==> (#[trigger] out.local(n)) is Some
            &&& obeys(site, m, out.frame.insts) && holds_record(m, ValueId(0), h, r)
                && out.stop is None ==> holds_cells(m, out, r)
        }),
{
    reveal(State::enter);
    reveal(State::take_param);
    reveal(State::add_param);
    reveal(State::define);
    reveal(State::halted);
    reveal(State::begin_body);
    reveal(State::fresh_block);
    reveal(State::start_block);
    let (inner, record) = outer.enter().take_param(ProcTypeView::Pointer);
    let st = inner.begin_body();
    lemma_loads(site, m, st, record, h, h.len(), r);
    let out = predicate_begun(outer, h);
    if out.stop is None {
        assert(record == ValueId(0));
        assert forall|n: Name| attr_names(h).contains(n) implies (#[trigger] out.local(n)) is Some by {
            let i = choose|i: int| 0 <= i < attr_names(h).len() && attr_names(h)[i] == n;
            assert(h[i].0 == n);
            lemma_flat(out, n);
        }
    }
}

proof fn lemma_begun_sound(outer: State, h: HeadingView)
    requires
        sound(outer),
    ensures
        sound(predicate_begun(outer, h)),
{
    broadcast use group_runs;

    let entered = outer.enter();
    lemma_enter(outer);
    let (inner, record) = entered.take_param(ProcTypeView::Pointer);
    lemma_take_param(entered, ProcTypeView::Pointer);
    let first = inner.begin_body();
    lemma_begin_body(inner);
    assert(is_value(first, record)) by {
        reveal(reaches);
        reveal(grows);
    }
    lemma_loads_first(first, record, h, h.len());
}

proof fn lemma_ended(site: Site, m: Machine, outer: State, h: HeadingView, p: Expr)
    requires
        sound(outer),
        tests_attributes(p, h),
        predicate_ended(outer, h, p).stop is None,
    ensures
        ({
            let begun = predicate_begun(outer, h);
            let (inner, accepted) = lowered(begun, p);
            let out = predicate_ended(outer, h, p);
            &&& is_readable(begun, p)
            &&& begun.stop is None
            &&& outer.stop is None
            &&& out.frame.blocks.len() == 1
            &&& out.frame.blocks[0].terminator == TerminatorView::Return(Some(accepted))
            &&& begins(out.frame.blocks[0].insts, inner.frame.insts)
            &&& stays(begun, inner)
            &&& out.env == outer.env
            &&& begins(out.headings, outer.headings)
            &&& begins(out.functions, outer.functions)
        }),
{
    let begun = predicate_begun(outer, h);
    lemma_begun(site, m, outer, h, Map::empty());
    lemma_begun_sound(outer, h);
    lemma_lowered(begun, p);
    let (inner, accepted) = lowered(begun, p);
    reveal(State::release_deferred);
    reveal(State::finish_block);
    assert(begun.stop is None && begins(inner.headings, begun.headings) && begins(
        inner.functions,
        begun.functions,
    )) by {
        reveal(runs);
        reveal(grows);
    }
    assert forall|n: Name| #[trigger] reads(p, n) implies begun.local(n) is Some && begun.alias(
        n,
    ) is None by {
        lemma_flat(begun, n);
        assert(attr_names(h).contains(n));
    }
    law_scalars_are_computed(site, m, begun, p);
}

/// A predicate function answers whether the condition that it was made of is true.
proof fn lemma_answer(
    site: Site,
    m: Machine,
    outer: State,
    h: HeadingView,
    p: Expr,
    f: FunctionView,
    r: Row,
    answer: bool,
)
    requires
        sound(outer),
        tests_attributes(p, h),
        predicate_ended(outer, h, p).stop is None,
        f.blocks == predicate_ended(outer, h, p).frame.blocks,
        answers(site, f, h, r, m, answer),
    ensures
        answer == is_true_of(site.codes, p, r),
{
    let begun = predicate_begun(outer, h);
    lemma_ended(site, m, outer, h, p);
    lemma_begun(site, m, outer, h, r);
    let (inner, accepted) = lowered(begun, p);
    let all = f.blocks[0].insts;
    lemma_obeyed(site, m, inner.frame.insts, all);
    lemma_obeyed(site, m, begun.frame.insts, inner.frame.insts);
    law_scalars_are_computed(site, m, begun, p);
    assert(holds_cells(m, begun, r));
    assert forall|n: Name| #[trigger] reads(p, n) implies bound_values(begun, m)(n) == cells_of(
        r,
    )(n) by {
        lemma_flat(begun, n);
        assert(begun.local(n) is Some);
        assert(find_in(begun.frame.scopes[0].locals, n) is Some);
    }
    lemma_value_by_names(site.codes, p, bound_values(begun, m), cells_of(r));
}

/// What is obeyed in the end was obeyed before, and its scalars are reckoned.
proof fn lemma_obeyed(site: Site, m: Machine, s: Seq<InstView>, t: Seq<InstView>)
    requires
        begins(t, s),
        obeys(site, m, t),
    ensures
        obeys(site, m, s),
        reckons(site, m, s),
{
    assert forall|i: int| 0 <= i < s.len() implies inst_holds(site, m, #[trigger] s[i]) by {
        assert(t[i] == s[i]);
    }
}

/// A restriction of a private relvar has the relvar's rows of which the condition is
/// true.
proof fn lemma_where(
    site: Site,
    m: Machine,
    st: State,
    last: State,
    e: Expr,
    name: Name,
    id: HeadingId,
)
    requires
        sound(st),
        restricts(e, name),
        is_private(st, name, id),
        id.0 < st.headings.len(),
        tests_attributes(condition_of(e), st.headings[id.0 as int]),
        lowered(st, e).0.stop is None,
        begins(last.functions, lowered(st, e).0.functions),
        begins(last.headings, lowered(st, e).0.headings),
        is_around(site, last),
    ensures
        ({
            let (out, v) = lowered(st, e);
            &&& stays(st, out)
            &&& out.type_of(v) == ProcTypeView::Relation(id)
            &&& obeys(site, m, out.frame.insts) ==> forall|r: Row| #[trigger]
                (m.row)(v, r) == ((site.slot)(name, r) && is_true_of(
                    site.codes,
                    condition_of(e),
                    r,
                ))
        }),
{
    if let ExprKind::Binary { op, lhs, rhs } = e.kind {
        let p = *rhs;
        let h = st.headings[id.0 as int];
        let input = built(st, *lhs)->0;
        assert(attempted(st, e) == (st, None::<ValueId>)) by {
            reveal(attempted);
            reveal(offered);
            if built(st, e) is Some {
                lemma_restricted_origin(input, conjuncts_of(p, input.heading())->0);
            }
        }
        assert(guarded(st, e) == st) by {
            reveal(guarded);
            reveal(operand_guarded);
        }
        assert(lowered(st, e) == where_lowered(st, e));
        lemma_read(site, m, st, *lhs, id);
        lemma_lowered(st, *lhs);
        lemma_lowered(st, e);
        let (a, src) = lowered(st, *lhs);
        let (out, v) = lowered(st, e);
        reveal(State::relation_id);
        reveal(State::heading_at);
        reveal(State::unlowered);
        reveal(State::halted);
        assert(a.stop is None) by {
            if a.stop is Some {
                lemma_where_stops(site, m, st, e);
            }
        }
        assert(a.heading_at(id) == h);
        let (outer, fname) = a.where_name();
        lemma_where_name(a);
        reveal(State::where_name);
        let closed = predicate_ended(outer, h, p);
        let params = seq![("record_ptr"@, ProcTypeView::Pointer)];
        let b = closed.leave(outer.frame, fname, params, ProcTypeView::Boolean);
        let (c, dst) = b.define(ProcTypeView::Relation(id));
        let inst = InstView::Where { dst, src, predicate_linkage: fname, heading_id: id };
        let d = c.emit(inst);
        assert(out == d.release_unbound(src) && v == dst);
        reveal(State::leave);
        reveal(State::define);
        reveal(State::emit);
        reveal(State::release_unbound);
        reveal(State::type_of);
        lemma_ended(site, m, outer, h, p);
        let f = b.functions.last();
        let i = b.functions.len() - 1;
        assert(last.functions[i] == out.functions[i] && out.functions[i] == f);
        assert(site.headings[id.0 as int] == h) by {
            assert(out.headings[id.0 as int] == outer.headings[id.0 as int]);
            assert(last.headings[id.0 as int] == out.headings[id.0 as int]);
        }
        if obeys(site, m, out.frame.insts) {
            lemma_obeyed(site, m, d.frame.insts, out.frame.insts);
            assert(d.frame.insts[d.frame.insts.len() - 1] == inst);
            assert(inst_holds(site, m, inst));
            lemma_obeyed(site, m, a.frame.insts, d.frame.insts);
            let rows = |r: Row| (m.row)(src, r) && (site.accepts)(
                fname,
                heading_of(site.headings, id),
                r,
            );
            assert(rows_are(m, dst, rows));
            assert forall|r: Row| #[trigger]
                (m.row)(v, r) == ((site.slot)(name, r) && is_true_of(site.codes, p, r)) by {
                assert((m.row)(v, r) == rows(r));
                let answer = (site.accepts)(last.functions[i].linkage_name, h, r);
                assert(is_straight(last.functions[i]));
                let x = choose|x: Machine| #[trigger]
                    answers(site, last.functions[i], h, r, x, answer);
                lemma_answer(site, x, outer, h, p, f, r, answer);
            }
        }
    }
}

/// Where the relvar's value could not be made, neither could its restriction's.
proof fn lemma_where_stops(site: Site, m: Machine, st: State, e: Expr)
    requires
        sound(st),
        e.kind matches ExprKind::Binary { lhs, .. } && lowered(st, *lhs).0.stop is Some,
    ensures
        where_lowered(st, e).0.stop is Some,
{
    if let ExprKind::Binary { op, lhs, rhs } = e.kind {
        lemma_lowered(st, *lhs);
        let (a, src) = lowered(st, *lhs);
        reveal(State::unlowered);
        reveal(State::halted);
        reveal(State::where_name);
        reveal(State::leave);
        reveal(State::define);
        reveal(State::emit);
        reveal(State::release_unbound);
        reveal(State::release_deferred);
        reveal(State::finish_block);
        if let Some(id) = a.relation_id(src) {
            let h = a.heading_at(id);
            let (outer, _) = a.where_name();
            lemma_where_name(a);
            lemma_begun(site, m, outer, h, Map::empty());
            lemma_begun_sound(outer, h);
            let begun = predicate_begun(outer, h);
            lemma_lowered(begun, *rhs);
            assert(lowered(begun, *rhs).0.stop is Some) by {
                reveal(runs);
                reveal(grows);
            }
        }
    }
}

/// A difference has the rows of the first relation that are not in the second.
pub proof fn lemma_subtract(site: Site, m: Machine, st: State, l: ValueId, g: ValueId)
    ensures
        ({
            let (out, v) = st.subtract(l, g);
            &&& stays(st, out)
            &&& out.functions == st.functions && out.headings == st.headings
            &&& out.stop is None && obeys(site, m, out.frame.insts) ==> forall|r: Row| #[trigger]
                (m.row)(v, r) == ((m.row)(l, r) && !(m.row)(g, r))
        }),
{
    reveal(State::subtract);
    reveal(State::unlowered);
    reveal(State::halted);
    reveal(State::define);
    reveal(State::emit);
    let (out, v) = st.subtract(l, g);
    if let Some(id) = st.relation_id(l) {
        let inst = InstView::Minus { dst: v, lhs: l, rhs: g, heading_id: id };
        assert(out.frame.insts[out.frame.insts.len() - 1] == inst);
        if obeys(site, m, out.frame.insts) {
            assert(inst_holds(site, m, inst));
            let rows = |r: Row| (m.row)(l, r) && !(m.row)(g, r);
            assert(rows_are(m, v, rows));
            assert forall|r: Row| #[trigger] (m.row)(v, r) == ((m.row)(l, r) && !(m.row)(g, r)) by {
                assert((m.row)(v, r) == rows(r));
            }
        }
    }
}

/// A union has the rows of both relations.
pub proof fn lemma_unite(site: Site, m: Machine, st: State, l: ValueId, g: ValueId)
    ensures
        ({
            let (out, v) = st.unite(l, g);
            &&& stays(st, out)
            &&& out.functions == st.functions && out.headings == st.headings
            &&& out.stop is None && obeys(site, m, out.frame.insts) ==> forall|r: Row| #[trigger]
                (m.row)(v, r) == ((m.row)(l, r) || (m.row)(g, r))
        }),
{
    reveal(State::unite);
    reveal(State::unlowered);
    reveal(State::halted);
    reveal(State::define);
    reveal(State::emit);
    let (out, v) = st.unite(l, g);
    if let Some(id) = st.relation_id(l) {
        let inst = InstView::Union { dst: v, lhs: l, rhs: g, heading_id: id };
        assert(out.frame.insts[out.frame.insts.len() - 1] == inst);
        if obeys(site, m, out.frame.insts) {
            assert(inst_holds(site, m, inst));
            let rows = |r: Row| (m.row)(l, r) || (m.row)(g, r);
            assert(rows_are(m, v, rows));
            assert forall|r: Row| #[trigger] (m.row)(v, r) == ((m.row)(l, r) || (m.row)(g, r)) by {
                assert((m.row)(v, r) == rows(r));
            }
        }
    }
}

/// Whether the last thing that the code does is to give the relvar these rows.
pub open spec fn gives_rows(m: Machine, st: State, name: Name, rows: spec_fn(Row) -> bool) -> bool {
    &&& st.frame.insts.len() > 0
    &&& st.frame.insts.last() matches InstView::RelvarSlotStore { name: n, value } && n == name
        && rows_are(m, value, rows)
}

proof fn lemma_stored(site: Site, m: Machine, st: State, name: Name, v: ValueId)
    ensures
        stays(st, stored(st, name, v)),
        stored(st, name, v).functions == st.functions,
        stored(st, name, v).headings == st.headings,
        stored(st, name, v).frame.insts.len() > 0,
        stored(st, name, v).frame.insts.last() == (InstView::RelvarSlotStore { name, value: v }),
{
    reveal(stored);
    reveal(State::use_private);
    reveal(State::emit);
}

/// A deletion leaves a private relvar with exactly its rows of which the condition is
/// not true.
pub proof fn law_deletions_leave_the_rest(
    site: Site,
    m: Machine,
    st: State,
    operand: Expr,
    name: Name,
    id: HeadingId,
)
    requires
        sound(st),
        restricts(operand, name),
        is_private(st, name, id),
        id.0 < st.headings.len(),
        tests_attributes(condition_of(operand), st.headings[id.0 as int]),
        delete_lowered(st, operand).stop is None,
        is_around(site, delete_lowered(st, operand)),
        obeys(site, m, delete_lowered(st, operand).frame.insts),
    ensures
        gives_rows(
            m,
            delete_lowered(st, operand),
            name,
            |r: Row| (site.slot)(name, r) && !is_true_of(site.codes, condition_of(operand), r),
        ),
{
    if let ExprKind::Binary { op, lhs, rhs } = operand.kind {
        let (a, l) = lowered(st, *lhs);
        lemma_read(site, m, st, *lhs, id);
        lemma_lowered(st, *lhs);
        lemma_private_stays(st, a, name, id);
        let (b, g) = lowered(a, operand);
        lemma_lowered(a, operand);
        let (c, v) = b.subtract(l, g);
        lemma_subtract(site, m, b, l, g);
        let out = stored(c, name, v);
        lemma_stored(site, m, c, name, v);
        assert(out == delete_lowered(st, operand));
        lemma_where(site, m, a, out, operand, name, id);
        lemma_obeyed(site, m, c.frame.insts, out.frame.insts);
        lemma_obeyed(site, m, b.frame.insts, c.frame.insts);
        lemma_obeyed(site, m, a.frame.insts, b.frame.insts);
    }
}

/// Emptying a private relvar leaves it without rows.
pub proof fn law_truncating_leaves_nothing(
    site: Site,
    m: Machine,
    st: State,
    operand: Expr,
    name: Name,
    id: HeadingId,
)
    requires
        sound(st),
        attr_ref(operand) == Some(name),
        is_private(st, name, id),
        truncate_lowered(st, operand).stop is None,
        obeys(site, m, truncate_lowered(st, operand).frame.insts),
    ensures
        gives_rows(m, truncate_lowered(st, operand), name, |r: Row| false),
{
    let (a, l) = lowered(st, operand);
    lemma_read(site, m, st, operand, id);
    lemma_private_stays(st, a, name, id);
    let (b, g) = lowered(a, operand);
    lemma_read(site, m, a, operand, id);
    let (c, v) = b.subtract(l, g);
    lemma_subtract(site, m, b, l, g);
    let out = stored(c, name, v);
    lemma_stored(site, m, c, name, v);
    lemma_obeyed(site, m, c.frame.insts, out.frame.insts);
    lemma_obeyed(site, m, b.frame.insts, c.frame.insts);
    lemma_obeyed(site, m, a.frame.insts, b.frame.insts);
}

/// Whether all instructions of the function so far are obeyed.
pub open spec fn obeys_all(site: Site, m: Machine, st: State) -> bool {
    &&& obeys(site, m, st.frame.insts)
    &&& forall|i: int|
        0 <= i < st.frame.blocks.len() ==> obeys(site, m, (#[trigger] st.frame.blocks[i]).insts)
}

proof fn lemma_obeyed_on(site: Site, m: Machine, a: State, b: State)
    requires
        runs(a, b),
        b.stop is None,
        obeys_all(site, m, b),
    ensures
        obeys_all(site, m, a),
        a.stop is None,
{
    reveal(runs);
    reveal(grows);
    let k = a.frame.blocks.len() as int;
    if b.frame.blocks.len() > k {
        assert(obeys(site, m, b.frame.blocks[k].insts));
        lemma_obeyed(site, m, a.frame.insts, b.frame.blocks[k].insts);
    } else {
        lemma_obeyed(site, m, a.frame.insts, b.frame.insts);
    }
    assert forall|i: int| 0 <= i < a.frame.blocks.len() implies obeys(
        site,
        m,
        (#[trigger] a.frame.blocks[i]).insts,
    ) by {
        assert(b.frame.blocks[i] == a.frame.blocks[i]);
    }
}

/// The value of an insertion's source, lowered behind its target.
pub open spec fn source_value(st: State, target: Expr, source: Expr) -> ValueId {
    lowered(lowered(st, target).0, source).1
}

/// An insertion leaves a private relvar with exactly its rows and the source's.
pub proof fn law_insertions_add_the_rows(
    site: Site,
    m: Machine,
    st: State,
    s: Stmt,
    name: Name,
    id: HeadingId,
)
    requires
        sound(st),
        s matches Stmt::Insert { target, .. } && attr_ref(target) == Some(name),
        is_private(st, name, id),
        insert_lowered(st, s).stop is None,
        obeys_all(site, m, insert_lowered(st, s)),
    ensures
        s matches Stmt::Insert { target, source } && gives_rows(
            m,
            insert_lowered(st, s),
            name,
            |r: Row| (site.slot)(name, r) || (m.row)(source_value(st, target, source), r),
        ),
{
    if let Stmt::Insert { target, source } = s {
        let (a, l) = lowered(st, target);
        lemma_read(site, m, st, target, id);
        lemma_lowered(st, target);
        let (b, g) = lowered(a, source);
        lemma_lowered(a, source);
        let (c, v) = b.unite(l, g);
        lemma_unite(site, m, b, l, g);
        let out = stored(c, name, v);
        lemma_stored(site, m, c, name, v);
        assert(out == insert_lowered(st, s));
        lemma_obeyed(site, m, c.frame.insts, out.frame.insts);
        lemma_obeyed(site, m, b.frame.insts, c.frame.insts);
        assert(obeys_all(site, m, b)) by {
            assert(b.frame.blocks == out.frame.blocks);
        }
        lemma_obeyed_on(site, m, a, b);
    }
}

/// The changed rows are made in the same block, with the same bindings.
proof fn lemma_overwritten_stays(
    st: State,
    src: ValueId,
    pairs: Seq<(String, Expr)>,
    removed: Seq<Name>,
)
    requires
        sound(st),
        is_value(st, src),
        overwritten(st, src, pairs, removed).0.stop is None,
    ensures
        sound(overwritten(st, src, pairs, removed).0),
        runs(st, overwritten(st, src, pairs, removed).0),
        stays(st, overwritten(st, src, pairs, removed).0),
{
    crate::lower::valid::forms::lemma_overwritten(st, src, pairs, removed);
    let (out, _) = overwritten(st, src, pairs, removed);
    assert(out.env == st.env && st.stop is None && begins(out.frame.insts, st.frame.insts)) by {
        reveal(runs);
        reveal(grows);
        lemma_same_block(st, src, pairs, removed);
    }
    lemma_same_block(st, src, pairs, removed);
}

proof fn lemma_same_block(
    st: State,
    src: ValueId,
    pairs: Seq<(String, Expr)>,
    removed: Seq<Name>,
)
    requires
        overwritten(st, src, pairs, removed).0.stop is None,
    ensures
        ({
            let out = overwritten(st, src, pairs, removed).0;
            &&& out.frame.scopes == st.frame.scopes
            &&& out.frame.blocks == st.frame.blocks
            &&& out.frame.current == st.frame.current
            &&& out.frame.params == st.frame.params
            &&& out.frame.next_block == st.frame.next_block
            &&& out.frame.outer == st.frame.outer
            &&& begins(out.frame.insts, st.frame.insts)
        }),
{
    reveal(State::unlowered);
    reveal(State::halted);
    reveal(State::leave);
    reveal(State::extend_name);
    reveal(State::define);
    reveal(State::emit);
    reveal(State::intern);
    reveal(State::project);
    reveal(State::rename);
    reveal(State::release_unbound);
    if let Some(id) = st.relation_id(src) {
        let h = st.heading_at(id);
        let names = names_in(pairs);
        let (a, wide) = extended(st, src, sub_names(h, names), pairs);
        let b = a.release_unbound(src);
        let (c, narrow) = b.project(wide, sub_keep(h, names, removed), false);
        let d = c.release_unbound(wide);
    }
}

/// The relation of the rows that an update changes, changed.
pub open spec fn changed_value(st: State, operand: Expr, pairs: Seq<(String, Expr)>) -> ValueId {
    let (a, matching) = lowered(st, operand);
    overwritten(a, matching, pairs, names_in(pairs)).1
}

/// An update leaves a private relvar with exactly its rows of which the condition is
/// not true, and the changed ones.
pub proof fn law_updates_keep_the_rest(
    site: Site,
    m: Machine,
    st: State,
    s: Stmt,
    name: Name,
    id: HeadingId,
)
    requires
        sound(st),
        s matches Stmt::Update { operand, .. } && restricts(operand, name) && tests_attributes(
            condition_of(operand),
            st.headings[id.0 as int],
        ),
        is_private(st, name, id),
        id.0 < st.headings.len(),
        update_lowered(st, s).stop is None,
        is_around(site, update_lowered(st, s)),
        obeys(site, m, update_lowered(st, s).frame.insts),
    ensures
        s matches Stmt::Update { operand, pairs } && gives_rows(
            m,
            update_lowered(st, s),
            name,
            |r: Row|
                (site.slot)(name, r) && !is_true_of(site.codes, condition_of(operand), r) || (
                m.row)(changed_value(st, operand, pairs@), r),
        ),
{
    if let Stmt::Update { operand, pairs } = s {
        if let ExprKind::Binary { op, lhs, rhs } = operand.kind {
            let root = *lhs;
            let names = names_in(pairs@);
            lemma_lowered(st, operand);
            let (a, matching) = lowered(st, operand);
            crate::lower::valid::forms::lemma_overwritten(a, matching, pairs@, names);
            let (b, changed) = overwritten(a, matching, pairs@, names);
            lemma_lowered(b, root);
            let (c, all) = lowered(b, root);
            lemma_lowered(c, operand);
            let (d, again) = lowered(c, operand);
            let (x, unchanged) = d.subtract(all, again);
            lemma_subtract(site, m, d, all, again);
            let (y, v) = x.unite(unchanged, changed);
            lemma_unite(site, m, x, unchanged, changed);
            let out = stored(y, name, v);
            lemma_stored(site, m, y, name, v);
            assert(out == update_lowered(st, s));
            assert(d.stop is None && c.stop is None && b.stop is None && a.stop is None && begins(
                d.functions,
                a.functions,
            ) && begins(d.headings, a.headings) && begins(c.headings, st.headings)) by {
                reveal(runs);
                reveal(grows);
            }
            lemma_where(site, m, st, out, operand, name, id);
            lemma_private_stays(st, a, name, id);
            lemma_overwritten_stays(a, matching, pairs@, names);
            lemma_private_stays(a, b, name, id);
            lemma_read(site, m, b, root, id);
            lemma_private_stays(b, c, name, id);
            lemma_where(site, m, c, out, operand, name, id);
            lemma_obeyed(site, m, y.frame.insts, out.frame.insts);
            lemma_obeyed(site, m, x.frame.insts, y.frame.insts);
            lemma_obeyed(site, m, d.frame.insts, x.frame.insts);
            lemma_obeyed(site, m, c.frame.insts, d.frame.insts);
        }
    }
}

} // verus!
