//! The single changes of the state keep it well formed.

use crate::cut::{is_offered, QueryView};
use crate::diag::DiagnosticView;
use crate::ir::{
    heading_index, BlockId, BlockView, FunctionView, HeadingId, InstView, ProcTypeView,
    TerminatorView, ValueId,
};
use crate::lower::state::{
    empty_frame, key_index, keys_of, last_layer, lemma_last_layer_bound, local_layers, name_index,
    pending_layers, put_in, Bound, ChunkView, FrameView, RequestView, ScopeView, State, StopView,
};
use crate::lower::valid::explained::{
    entry_texts, in_asking_order, lemma_as_told, lemma_none_queried, lemma_order_grows,
    lemma_order_stays, lemma_queried_by_stays, lemma_queried_concat, lemma_queried_in_stays,
    lemma_queried_over_stays, lemma_same_told, lemma_tells_on, queried, queried_here, tells,
    texts_by_key,
};
use crate::lower::valid::{
    all_given, all_handed, assigned, assigned_by, assigned_in, assigned_over, begins, block_ids,
    block_in, blocks_in, body_ok, bounds, counted, entered_once, env_ok, filled, frame_ok,
    function_ok, functions_ok, goes_on, grows, hands, has_symbol, in_shape, inst_in, insts_in,
    is_answer, is_block, is_bracket, is_given, is_heading, is_set, is_supplied, is_target,
    is_value, leads, led_to, lemma_same_filled, lemma_same_shape, linked, may_query, meets,
    numbers, param_values, plans_ok, runs, scope_in, scopes_in, shaped, sound, symbol_for, tally,
    terminator_in, type_in, typed_in, types_ok, unassigned, Bounds,
};
use crate::rel_analysis::add_new;
use crate::rel_expr::RelView;
use crate::text::Name;
use crate::types::HeadingView;
use vstd::multiset::Multiset;
use vstd::prelude::*;

verus! {

broadcast use {lemma_same_filled, lemma_same_shape, lemma_same_told};

/// Whether everything within the first bounds is within the second.
pub open spec fn within(b: Bounds, c: Bounds) -> bool {
    &&& b.values <= c.values
    &&& b.blocks <= c.blocks
    &&& b.headings <= c.headings
    &&& b.plans <= c.plans
    &&& begins(c.functions, b.functions)
    &&& b.opers == c.opers
    &&& b.queries ==> c.queries
    &&& b.writes ==> c.writes
}

pub proof fn lemma_numbers_split(a: nat, b: nat, c: nat)
    requires
        a <= b <= c,
    ensures
        numbers(a, c) =~= numbers(a, b).add(numbers(b, c)),
    decreases c,
{
    if b < c {
        lemma_numbers_split(a, b, (c - 1) as nat);
    }
}

pub proof fn lemma_numbers_len(n: nat)
    ensures
        numbers(0, n).len() == n,
    decreases n,
{
    if n > 0 {
        lemma_numbers_len((n - 1) as nat);
    }
}

pub proof fn lemma_block_ids_len(s: Seq<BlockView>)
    ensures
        block_ids(s).len() == s.len(),
    decreases s.len(),
{
    if s.len() > 0 {
        lemma_block_ids_len(s.drop_last());
    }
}

pub proof fn lemma_symbol_stays(s: Seq<FunctionView>, t: Seq<FunctionView>, symbol: Name)
    requires
        begins(t, s),
        has_symbol(s, symbol),
    ensures
        has_symbol(t, symbol),
{
    let i = choose|i: int| 0 <= i < s.len() && (#[trigger] s[i]).linkage_name == symbol;
    assert(t[i] == s[i]);
}

proof fn lemma_inst_stays(i: InstView, b: Bounds, c: Bounds)
    requires
        within(b, c),
        inst_in(i, b),
    ensures
        inst_in(i, c),
{
    match i {
        InstView::Call { callee, .. } => {
            if has_symbol(b.functions, callee) {
                lemma_symbol_stays(b.functions, c.functions, callee);
            }
        },
        InstView::Where { predicate_linkage, .. } => {
            lemma_symbol_stays(b.functions, c.functions, predicate_linkage);
        },
        InstView::Extend { helper_linkage, .. } => {
            lemma_symbol_stays(b.functions, c.functions, helper_linkage);
        },
        _ => {},
    }
}

pub proof fn lemma_insts_stay(s: Seq<InstView>, b: Bounds, c: Bounds)
    requires
        within(b, c),
        insts_in(s, b),
    ensures
        insts_in(s, c),
{
    assert forall|i: int| 0 <= i < s.len() implies inst_in(#[trigger] s[i], c) by {
        lemma_inst_stays(s[i], b, c);
    }
}

pub proof fn lemma_blocks_stay(s: Seq<BlockView>, b: Bounds, c: Bounds)
    requires
        within(b, c),
        blocks_in(s, b),
    ensures
        blocks_in(s, c),
{
    assert forall|i: int| 0 <= i < s.len() implies block_in(#[trigger] s[i], c) by {
        assert(block_in(s[i], b));
        lemma_insts_stay(s[i].insts, b, c);
    }
}

/// Whether the tables of the first bounds are within those of the second.
pub open spec fn tables_within(b: Bounds, c: Bounds) -> bool {
    &&& b.headings <= c.headings
    &&& b.plans <= c.plans
    &&& begins(c.functions, b.functions)
    &&& b.opers == c.opers
    &&& b.queries ==> c.queries
    &&& b.writes ==> c.writes
}

pub proof fn lemma_functions_stay(
    s: Seq<FunctionView>,
    types: Seq<Seq<ProcTypeView>>,
    b: Bounds,
    c: Bounds,
)
    requires
        tables_within(b, c),
        functions_ok(s, types, b),
    ensures
        functions_ok(s, types, c),
{
    assert forall|i: int| 0 <= i < s.len() implies function_ok(#[trigger] s[i], types[i], c) by {
        assert(function_ok(s[i], types[i], b));
        let f = s[i];
        if f.blocks.len() > 0 {
            let n = types[i].len();
            let of_b = Bounds { values: n, ..b };
            let of_c = Bounds { values: n, ..c };
            lemma_blocks_stay(
                f.blocks,
                Bounds { blocks: f.blocks.len(), ..of_b },
                Bounds { blocks: f.blocks.len(), ..of_c },
            );
            assert(body_ok(f.blocks, of_c));
        }
    }
}

proof fn lemma_type_stays(t: ProcTypeView, m: nat, n: nat)
    requires
        m <= n,
        type_in(t, m),
    ensures
        type_in(t, n),
    decreases t,
{
    match t {
        ProcTypeView::Sequence(elem) => lemma_type_stays(*elem, m, n),
        _ => {},
    }
}

pub proof fn lemma_types_stay(s: Seq<ProcTypeView>, m: nat, n: nat)
    requires
        m <= n,
        types_ok(s, m),
    ensures
        types_ok(s, n),
{
    assert forall|i: int| 0 <= i < s.len() implies type_in(#[trigger] s[i], n) by {
        lemma_type_stays(s[i], m, n);
    }
}

pub proof fn lemma_frame_stays(f: FrameView, b: Bounds, c: Bounds)
    requires
        within(b, c),
        frame_ok(f, b),
    ensures
        frame_ok(f, c),
{
    lemma_types_stay(f.types, b.headings, c.headings);
    lemma_insts_stay(f.insts, b, c);
    lemma_blocks_stay(f.blocks, b, c);
    assert forall|i: int| 0 <= i < f.scopes.len() implies scope_in(
        #[trigger] f.scopes[i],
        c.values,
    ) by {
        assert(scope_in(f.scopes[i], b.values));
    }
}

pub proof fn lemma_begins<A>(s: Seq<A>, t: Seq<A>, u: Seq<A>)
    requires
        begins(s, t),
        begins(t, u),
    ensures
        begins(s, u),
{
    assert forall|i: int| 0 <= i < u.len() implies s[i] == #[trigger] u[i] by {
        assert(t[i] == u[i]);
    }
}

pub broadcast proof fn lemma_grows_on(a: State, b: State, c: State)
    requires
        #[trigger] grows(a, b),
        #[trigger] grows(b, c),
    ensures
        grows(a, c),
{
    reveal(grows);
    lemma_begins(c.headings, b.headings, a.headings);
    lemma_begins(c.plans, b.plans, a.plans);
    lemma_begins(c.functions, b.functions, a.functions);
    lemma_begins(c.diagnostics, b.diagnostics, a.diagnostics);
    lemma_begins(c.relir, b.relir, a.relir);
}

pub broadcast proof fn lemma_runs_on(a: State, b: State, c: State)
    requires
        #[trigger] runs(a, b),
        #[trigger] runs(b, c),
    ensures
        runs(a, c),
{
    reveal(runs);
    lemma_grows_on(a, b, c);
    reveal(grows);
    if c.stop is None {
        let (l, m, n) = (
            a.frame.next_block as nat,
            b.frame.next_block as nat,
            c.frame.next_block as nat,
        );
        lemma_begins(c.frame.types, b.frame.types, a.frame.types);
        lemma_begins(c.frame.blocks, b.frame.blocks, a.frame.blocks);
        lemma_numbers_split(l, m, n);
        assert(tally(c.frame) =~= tally(a.frame).add(numbers(l, n)));
        lemma_shape_on(a.frame, b.frame, c.frame);
        lemma_tells_on(a, b, c);
        lemma_filled_on(a.frame, b.frame, c.frame);
    }
}

/// Values assigned, with more that are assigned behind them.
pub proof fn lemma_filled_on(a: FrameView, b: FrameView, c: FrameView)
    requires
        filled(a, b),
        filled(b, c),
        begins(c.types, b.types),
    ensures
        filled(a, c),
{
    reveal(filled);
    assert forall|v: ValueId| a.types.len() <= v.0 < c.types.len() implies #[trigger] is_set(
        c,
        v,
    ) by {
        if v.0 < b.types.len() {
            assert(is_set(b, v));
            assert(c.types[v.0 as int] == b.types[v.0 as int]);
        }
    }
}

/// Blocks that fit together, with more that fit behind them.
pub proof fn lemma_shaped_on(
    a: FrameView,
    b: FrameView,
    c: FrameView,
    first: Map<u32, nat>,
    more: Map<u32, nat>,
)
    requires
        shaped(a, b, first),
        shaped(b, c, more),
        begins(c.blocks, b.blocks),
        a.next_block <= b.next_block <= c.next_block,
    ensures
        shaped(a, c, first.union_prefer_right(more)),
        first.submap_of(first.union_prefer_right(more)),
{
    let all = first.union_prefer_right(more);
    assert forall|k: u32| #[trigger] first.contains_key(k) implies !more.contains_key(k) by {}
    assert forall|i: int| a.blocks.len() <= i < c.blocks.len() implies meets(
        (#[trigger] c.blocks[i]).terminator,
        all,
    ) && counted(a, c.blocks, i, all) by {
        if i < b.blocks.len() {
            assert(c.blocks[i] == b.blocks[i]);
            assert(meets(b.blocks[i].terminator, first));
            assert(counted(a, b.blocks, i, first));
        } else {
            assert(meets(c.blocks[i].terminator, more));
            assert(counted(b, c.blocks, i, more));
        }
    }
}

proof fn lemma_shape_on(a: FrameView, b: FrameView, c: FrameView)
    requires
        in_shape(a, b),
        in_shape(b, c),
        begins(c.blocks, b.blocks),
        a.next_block <= b.next_block <= c.next_block,
    ensures
        in_shape(a, c),
{
    reveal(in_shape);
    let first = choose|counts: Map<u32, nat>| #[trigger] shaped(a, b, counts);
    let more = choose|counts: Map<u32, nat>| #[trigger] shaped(b, c, counts);
    lemma_shaped_on(a, b, c, first, more);
}

/// What follows from being reached.
pub broadcast proof fn lemma_runs_keeps(a: State, b: State)
    requires
        #[trigger] runs(a, b),
    ensures
        grows(a, b),
        b.env == a.env,
        a.stop is Some ==> b.stop == a.stop,
        a.headings.len() <= b.headings.len(),
        forall|i: int| 0 <= i < a.headings.len() ==> b.headings[i] == #[trigger] a.headings[i],
        a.plans.len() <= b.plans.len(),
        b.stop is None ==> {
            &&& a.frame.types.len() <= b.frame.types.len()
            &&& forall|i: int|
                0 <= i < a.frame.types.len() ==> b.frame.types[i] == #[trigger] a.frame.types[i]
            &&& a.frame.next_block <= b.frame.next_block
        },
        begins(b.functions, a.functions),
{
    reveal(runs);
    reveal(grows);
}

pub broadcast group group_runs {
    lemma_runs_on,
    lemma_runs_keeps,
    lemma_reaches_keeps,
}

pub proof fn lemma_runs_here(a: State)
    ensures
        runs(a, a),
{
    reveal(runs);
    reveal(grows);
    assert(tally(a.frame) =~= tally(a.frame).add(Multiset::empty()));
}

/// Whether only what no number refers to has changed.
spec fn only_notes(a: State, b: State) -> bool {
    &&& b.env == a.env
    &&& b.frame == FrameView {
        cell_temps: b.frame.cell_temps,
        ..a.frame
    }
    &&& b.functions == a.functions
    &&& b.value_types == a.value_types
    &&& b.seen == a.seen
    &&& b.headings == a.headings
    &&& begins(b.diagnostics, a.diagnostics)
    &&& b.relir == a.relir
    &&& b.plans == a.plans
    &&& b.plan_keys == a.plan_keys
    &&& a.asked <= b.asked
    &&& b.stop is None ==> b.asked <= b.env.answers.len()
    &&& b.stop matches Some(StopView::Ask(_)) ==> b.asked >= b.env.answers.len()
    &&& (b.stop == a.stop || a.stop is None)
}

proof fn lemma_notes(a: State, b: State)
    requires
        sound(a),
        only_notes(a, b),
    ensures
        sound(b),
        runs(a, b),
        forall|v: ValueId| unassigned(a, v) ==> #[trigger] unassigned(b, v),
{
    reveal(sound);
    reveal(runs);
    reveal(grows);
    reveal(unassigned);
    assert(tally(a.frame) =~= tally(a.frame).add(Multiset::empty()));
    if b.stop is None {
        lemma_order_stays(a.relir, a.env.answers, a.asked, b.asked);
    }
}

pub proof fn lemma_halted(st: State, why: StopView)
    requires
        sound(st),
        !(why is Ask),
    ensures
        sound(st.halted(why)),
        runs(st, st.halted(why)),
        st.halted(why).stop is Some,
{
    reveal(State::halted);
    reveal(sound);
    lemma_notes(st, st.halted(why));
}

pub proof fn lemma_diagnose(st: State, d: DiagnosticView)
    requires
        sound(st),
    ensures
        sound(st.diagnose(d)),
        runs(st, st.diagnose(d)),
{
    reveal(State::diagnose);
    reveal(sound);
    lemma_notes(st, st.diagnose(d));
}

pub proof fn lemma_use_legacy(st: State, name: Name)
    requires
        sound(st),
    ensures
        sound(st.use_legacy(name)),
        runs(st, st.use_legacy(name)),
{
    reveal(State::use_legacy);
    reveal(sound);
    lemma_notes(st, st.use_legacy(name));
}

pub proof fn lemma_use_private(st: State, name: Name)
    requires
        sound(st),
    ensures
        sound(st.use_private(name)),
        runs(st, st.use_private(name)),
{
    reveal(State::use_private);
    reveal(sound);
    lemma_notes(st, st.use_private(name));
}

pub proof fn lemma_set_temps(st: State, v: ValueId, temps: Seq<ValueId>)
    requires
        sound(st),
    ensures
        sound(st.set_temps(v, temps)),
        runs(st, st.set_temps(v, temps)),
{
    reveal(State::set_temps);
    reveal(sound);
    lemma_notes(st, st.set_temps(v, temps));
}

pub proof fn lemma_drop_temps(st: State, v: ValueId)
    requires
        sound(st),
    ensures
        sound(st.drop_temps(v)),
        runs(st, st.drop_temps(v)),
        forall|w: ValueId| unassigned(st, w) ==> #[trigger] unassigned(st.drop_temps(v), w),
{
    reveal(State::drop_temps);
    reveal(sound);
    lemma_notes(st, st.drop_temps(v));
}

/// Whether a name is one that helper functions have.
pub open spec fn is_helper(name: Name) -> bool {
    name.len() > 0 && name[0] == '_'
}

pub proof fn lemma_where_name(st: State)
    requires
        sound(st),
    ensures
        sound(st.where_name().0),
        runs(st, st.where_name().0),
        is_helper(st.where_name().1),
{
    reveal_strlit("__coddl_where_");
    assert("__coddl_where_"@[0] == '_');
    reveal(State::where_name);
    reveal(State::halted);
    reveal(sound);
    lemma_notes(st, st.where_name().0);
}

pub proof fn lemma_extend_name(st: State)
    requires
        sound(st),
    ensures
        sound(st.extend_name().0),
        runs(st, st.extend_name().0),
        is_helper(st.extend_name().1),
{
    reveal_strlit("__coddl_extend_");
    assert("__coddl_extend_"@[0] == '_');
    reveal(State::extend_name);
    reveal(State::halted);
    reveal(sound);
    lemma_notes(st, st.extend_name().0);
}

/// Whether an expression can be noted as pushed, with the statement supplied last,
/// unless lowering has stopped.
pub open spec fn may_explain(st: State, rel: RelView, text: Seq<char>) -> bool {
    st.stop is Some || in_asking_order(st.relir.push((rel, text)), st.env.answers, st.asked)
}

pub proof fn lemma_ask(st: State, request: RequestView)
    requires
        sound(st),
    ensures
        sound(st.ask(request).0),
        runs(st, st.ask(request).0),
        st.ask(request).1 matches Some(q) ==> is_supplied(st.ask(request).0, q),
        st.ask(request).1 matches Some(q) ==> forall|rel: RelView|
            is_offered(rel) ==> #[trigger] may_explain(st.ask(request).0, rel, q.text),
{
    reveal(State::ask);
    reveal(State::halted);
    reveal(sound);
    lemma_notes(st, st.ask(request).0);
    if let Some(q) = st.ask(request).1 {
        assert forall|rel: RelView| is_offered(rel) implies #[trigger] may_explain(
            st.ask(request).0,
            rel,
            q.text,
        ) by {
            if st.stop is None {
                lemma_order_grows(st.relir, st.env.answers, st.asked, (rel, q.text));
            }
        }
    }
}

/// A parameter of a function that is being begun.
pub proof fn lemma_take_param(st: State, ty: ProcTypeView)
    requires
        sound(st),
        is_type(st, ty),
    ensures
        ({
            let (out, v) = st.take_param(ty);
            &&& sound(out)
            &&& grows(st, out)
            &&& out.stop is None ==> {
                &&& tells(st, out)
                &&& v.0 == st.frame.types.len()
                &&& out.frame.types == st.frame.types.push(ty)
                &&& out.frame.param_ids == st.frame.param_ids.push(v)
            }
            &&& is_value(out, v)
            &&& out.frame.insts == st.frame.insts
            &&& out.frame.blocks == st.frame.blocks
            &&& out.frame.current == st.frame.current
            &&& out.frame.next_block == st.frame.next_block
        }),
{
    broadcast use group_reaches;

    reveal(State::take_param);
    reveal(State::add_param);
    lemma_define(st, ty);
    assert(st.define(ty).0.frame.param_ids == st.frame.param_ids) by {
        reveal(State::define);
        reveal(State::halted);
    }
    reveal(sound);
    reveal(grows);
    reveal(reaches);
    let (mid, out) = (st.define(ty).0, st.take_param(ty).0);
    assert(tells(mid, out));
    if out.stop is None {
        lemma_tells_on(st, mid, out);
        assert(assigned(out.frame) == assigned(mid.frame));
    }
}

/// Whether an instruction can be added, unless lowering has stopped.
pub open spec fn fits(st: State, i: InstView) -> bool {
    st.stop is Some || inst_in(i, bounds(st))
}

/// Whether a type's relations have headings, unless lowering has stopped.
pub open spec fn is_type(st: State, ty: ProcTypeView) -> bool {
    st.stop is Some || type_in(ty, st.headings.len())
}

pub proof fn lemma_define(st: State, ty: ProcTypeView)
    requires
        sound(st),
        is_type(st, ty),
    ensures
        sound(st.define(ty).0),
        reaches(st, st.define(ty).0),
        ty is Unit ==> runs(st, st.define(ty).0),
        is_value(st.define(ty).0, st.define(ty).1),
        unassigned(st.define(ty).0, st.define(ty).1),
        forall|w: ValueId| unassigned(st, w) ==> #[trigger] unassigned(st.define(ty).0, w),
        st.define(ty).0.frame.insts == st.frame.insts,
        st.define(ty).0.frame.blocks == st.frame.blocks,
        st.define(ty).0.frame.current == st.frame.current,
        st.define(ty).0.frame.next_block == st.frame.next_block,
        st.define(ty).0.stop is None ==> {
            &&& st.define(ty).1.0 == st.frame.types.len()
            &&& st.define(ty).0.frame.types == st.frame.types.push(ty)
        },
{
    reveal(State::define);
    reveal(State::halted);
    reveal(sound);
    reveal(runs);
    reveal(reaches);
    reveal(grows);
    reveal(unassigned);
    reveal(filled);
    let (out, v) = st.define(ty);
    if st.frame.types.len() < u32::MAX {
        assert(tally(st.frame) =~= tally(st.frame).add(Multiset::empty()));
        if st.stop is None {
            assert(within(bounds(st), bounds(out)));
            lemma_functions_stay(st.functions, st.value_types, bounds(st), bounds(out));
            let old_frame = st.frame;
            lemma_frame_stays(old_frame, bounds(st), bounds(out));
            assert(assigned(out.frame) == assigned(old_frame));
            if assigned(out.frame).contains(v) {
                let i = choose|i: int|
                    0 <= i < assigned(out.frame).len() && assigned(out.frame)[i] == v;
                assert(assigned(old_frame)[i].0 < st.frame.types.len());
            }
        }
    } else {
        lemma_halted(st, StopView::TooLarge);
    }
}

/// What was assigned is so with one more.
proof fn lemma_still_assigned(was: Seq<ValueId>, v: ValueId)
    ensures
        was.push(v).contains(v),
        forall|w: ValueId| #[trigger] was.contains(w) ==> was.push(v).contains(w),
{
    let now = was.push(v);
    assert(now[was.len() as int] == v);
    assert forall|w: ValueId| #[trigger] was.contains(w) implies now.contains(w) by {
        let i = choose|i: int| 0 <= i < was.len() && was[i] == w;
        assert(now[i] == w);
    }
}

/// An instruction that is no query.
pub proof fn lemma_emit(st: State, inst: InstView)
    requires
        sound(st),
        fits(st, inst),
        assigned_by(inst) matches Some(v) ==> unassigned(st, v),
        !(inst is Query),
    ensures
        sound(st.emit(inst)),
        runs(st, st.emit(inst)),
        st.emit(inst).stop == st.stop,
        st.stop is None ==> (assigned_by(inst) matches Some(v) ==> assigned(
            st.emit(inst).frame,
        ).contains(v)),
{
    reveal(State::emit);
    reveal(sound);
    reveal(runs);
    reveal(grows);
    reveal(unassigned);
    let out = st.emit(inst);
    assert(tally(st.frame) =~= tally(st.frame).add(Multiset::empty()));
    if st.stop is None {
        let insts = st.frame.insts.push(inst);
        assert(insts.drop_last() =~= st.frame.insts);
        assert(insts_in(insts, bounds(st)));
        let was = assigned(st.frame);
        match assigned_by(inst) {
            Some(v) => {
                assert(assigned(out.frame) =~= was.push(v));
                lemma_still_assigned(was, v);
            },
            None => {
                assert(assigned(out.frame) =~= was);
            },
        }
        reveal(filled);
        lemma_as_told(st, out);
    }
}

/// A query, noted as that of a pushed expression.
pub proof fn lemma_emit_query(st: State, inst: InstView, rel: RelView, text: Seq<char>)
    requires
        sound(st),
        fits(st, inst),
        assigned_by(inst) matches Some(v) ==> unassigned(st, v),
        inst is Query,
        may_explain(st, rel, text),
        st.stop is Some || (texts_by_key(st.env.answers)
            ==> st.plans[inst->Query_plan_id as int].sql == text),
    ensures
        sound(st.emit(inst).explain(rel, text)),
        runs(st, st.emit(inst).explain(rel, text)),
        st.emit(inst).explain(rel, text).stop == st.stop,
        st.stop is None ==> assigned(st.emit(inst).explain(rel, text).frame).contains(
            assigned_by(inst)->0,
        ),
{
    reveal(State::emit);
    reveal(State::explain);
    reveal(sound);
    reveal(runs);
    reveal(grows);
    reveal(unassigned);
    let out = st.emit(inst).explain(rel, text);
    assert(tally(st.frame) =~= tally(st.frame).add(Multiset::empty()));
    if st.stop is None {
        let insts = st.frame.insts.push(inst);
        assert(insts.drop_last() =~= st.frame.insts);
        assert(insts_in(insts, bounds(st)));
        let was = assigned(st.frame);
        assert(assigned(out.frame) =~= was.push(assigned_by(inst)->0));
        lemma_still_assigned(was, assigned_by(inst)->0);
        reveal(filled);
        let added = st.plans[inst->Query_plan_id as int].sql;
        assert(queried(out) =~= queried(st).insert(added));
        assert(out.relir.drop_last() =~= st.relir);
        reveal(tells);
        assert(queried(st).insert(text).add(entry_texts(st.relir)) =~= queried(st).add(
            entry_texts(st.relir).insert(text),
        ));
    }
}

/// A value defined and then assigned.
pub proof fn lemma_define_then(st: State, ty: ProcTypeView, out: State)
    requires
        sound(st),
        is_type(st, ty),
        runs(st.define(ty).0, out),
        out.stop is None ==> assigned(out.frame).contains(st.define(ty).1),
    ensures
        runs(st, out),
{
    lemma_define(st, ty);
    let (mid, v) = st.define(ty);
    reveal(runs);
    reveal(reaches);
    lemma_grows_on(st, mid, out);
    reveal(grows);
    if out.stop is None {
        assert(mid.frame == (FrameView { types: mid.frame.types, ..st.frame })) by {
            reveal(State::define);
        }
        lemma_tells_on(st, mid, out);
        assert(in_shape(st.frame, out.frame)) by {
            reveal(in_shape);
            let counts = choose|counts: Map<u32, nat>| #[trigger]
                shaped(mid.frame, out.frame, counts);
            assert forall|i: int|
                st.frame.blocks.len() <= i < out.frame.blocks.len() implies meets(
                (#[trigger] out.frame.blocks[i]).terminator,
                counts,
            ) && counted(st.frame, out.frame.blocks, i, counts) by {
                assert(counted(mid.frame, out.frame.blocks, i, counts));
            }
            assert(shaped(st.frame, out.frame, counts));
        }
        assert(filled(st.frame, out.frame)) by {
            reveal(filled);
            assert(assigned(mid.frame) == assigned(st.frame));
            assert forall|w: ValueId|
                st.frame.types.len() <= w.0 < out.frame.types.len() implies #[trigger] is_set(
                out.frame,
                w,
            ) by {
                if w.0 == st.frame.types.len() {
                    assert(w == v);
                }
            }
        }
    }
}

/// A value defined and assigned at once.
pub proof fn lemma_define_emit(st: State, ty: ProcTypeView, inst: InstView)
    requires
        sound(st),
        is_type(st, ty),
        assigned_by(inst) == Some(st.define(ty).1),
        fits(st.define(ty).0, inst),
        !(inst is Query),
    ensures
        sound(st.define(ty).0.emit(inst)),
        runs(st, st.define(ty).0.emit(inst)),
        is_value(st.define(ty).0.emit(inst), st.define(ty).1),
{
    broadcast use group_runs;

    lemma_define(st, ty);
    lemma_emit(st.define(ty).0, inst);
    lemma_define_then(st, ty, st.define(ty).0.emit(inst));
}

/// Whether a state is reached from another inside the same function, blocks
/// left open or not.
#[verifier::opaque]
pub open spec fn reaches(a: State, b: State) -> bool {
    &&& grows(a, b)
    &&& b.stop is None ==> {
        &&& begins(b.frame.types, a.frame.types)
        &&& goes_on(a.frame, b.frame)
        &&& a.frame.next_block <= b.frame.next_block
        &&& tells(a, b)
        &&& b.frame.param_ids == a.frame.param_ids
    }
}

pub broadcast proof fn lemma_reaches_on(a: State, b: State, c: State)
    requires
        #[trigger] reaches(a, b),
        #[trigger] reaches(b, c),
    ensures
        reaches(a, c),
{
    reveal(reaches);
    lemma_grows_on(a, b, c);
    reveal(grows);
    if c.stop is None {
        lemma_begins(c.frame.types, b.frame.types, a.frame.types);
        lemma_begins(c.frame.blocks, b.frame.blocks, a.frame.blocks);
        lemma_tells_on(a, b, c);
    }
}

/// What follows from being reached.
pub broadcast proof fn lemma_reaches_keeps(a: State, b: State)
    requires
        #[trigger] reaches(a, b),
    ensures
        grows(a, b),
        b.env == a.env,
        a.stop is Some ==> b.stop == a.stop,
        a.headings.len() <= b.headings.len(),
        forall|i: int| 0 <= i < a.headings.len() ==> b.headings[i] == #[trigger] a.headings[i],
        a.plans.len() <= b.plans.len(),
        b.stop is None ==> {
            &&& a.frame.types.len() <= b.frame.types.len()
            &&& forall|i: int|
                0 <= i < a.frame.types.len() ==> b.frame.types[i] == #[trigger] a.frame.types[i]
            &&& a.frame.next_block <= b.frame.next_block
        },
{
    reveal(reaches);
    reveal(grows);
}

pub broadcast proof fn lemma_runs_reaches(a: State, b: State)
    requires
        #[trigger] runs(a, b),
    ensures
        reaches(a, b),
        b.stop is None ==> tally(b.frame) == tally(a.frame).add(
            numbers(a.frame.next_block as nat, b.frame.next_block as nat),
        ),
        b.stop is None ==> in_shape(a.frame, b.frame),
        b.stop is None ==> filled(a.frame, b.frame),
{
    reveal(runs);
    reveal(reaches);
}

pub broadcast group group_reaches {
    lemma_reaches_on,
    lemma_reaches_keeps,
    lemma_runs_reaches,
}

/// What was led to stays so.
pub proof fn lemma_target_later(a: State, b: State, id: BlockId)
    requires
        reaches(a, b),
        is_target(a, id),
    ensures
        is_target(b, id),
{
    reveal(reaches);
    reveal(grows);
    if b.stop is None && id.0 != 0 {
        let j = choose|j: int|
            0 <= j < a.frame.blocks.len() && leads((#[trigger] a.frame.blocks[j]).terminator, id);
        assert(b.frame.blocks[j] == a.frame.blocks[j]);
    }
}

/// Reached with every block ended but the current one.
pub proof fn lemma_closes(a: State, b: State)
    requires
        reaches(a, b),
        b.stop is None ==> tally(b.frame) =~= tally(a.frame).add(
            numbers(a.frame.next_block as nat, b.frame.next_block as nat),
        ),
        b.stop is None ==> in_shape(a.frame, b.frame),
        b.stop is None ==> filled(a.frame, b.frame),
    ensures
        runs(a, b),
{
    reveal(runs);
    reveal(reaches);
}

pub proof fn lemma_fresh_block(st: State)
    requires
        sound(st),
    ensures
        sound(st.fresh_block().0),
        reaches(st, st.fresh_block().0),
        is_block(st.fresh_block().0, st.fresh_block().1),
        st.fresh_block().0.frame.blocks == st.frame.blocks,
        st.fresh_block().0.frame.current == st.frame.current,
        st.fresh_block().0.frame.params == st.frame.params,
        st.fresh_block().0.frame.scopes == st.frame.scopes,
        st.fresh_block().0.stop is None ==> {
            &&& st.fresh_block().1.0 == st.frame.next_block
            &&& st.fresh_block().0.frame.next_block == st.frame.next_block + 1
        },
        forall|w: ValueId| unassigned(st, w) ==> #[trigger] unassigned(st.fresh_block().0, w),
{
    reveal(State::fresh_block);
    reveal(State::halted);
    reveal(sound);
    reveal(reaches);
    reveal(grows);
    reveal(unassigned);
    let out = st.fresh_block().0;
    if st.stop is None && out.stop is None {
        lemma_functions_stay(st.functions, st.value_types, bounds(st), bounds(out));
        lemma_frame_stays(st.frame, bounds(st), bounds(out));
        assert(assigned(out.frame) == assigned(st.frame));
    }
}

/// The current block, ended.
pub open spec fn ended(f: FrameView, t: TerminatorView) -> BlockView {
    BlockView { id: f.current, params: f.params, insts: f.insts, terminator: t }
}

/// Whether a block that ends in a conditional branch leads to blocks that have
/// not been begun, unless lowering has stopped.
pub open spec fn leads_on(st: State, t: TerminatorView) -> bool {
    st.stop is Some || (t matches TerminatorView::CondBr { then_block, else_block, .. } ==> {
        &&& then_block.0 == 0 || tally(st.frame).count(then_block.0) == 0
        &&& else_block.0 == 0 || tally(st.frame).count(else_block.0) == 0
    })
}

/// Whether a block can end this way, unless lowering has stopped.
pub open spec fn ends(st: State, t: TerminatorView) -> bool {
    st.stop is Some || terminator_in(t, bounds(st))
}

/// The queries of a block that ends.
proof fn lemma_block_told(st: State, out: State, t: TerminatorView)
    requires
        out == st.finish_block(t),
    ensures
        tells(st, out),
{
    reveal(State::finish_block);
    assert(out.frame.blocks.drop_last() =~= st.frame.blocks);
    assert(queried(out) =~= queried(st));
    lemma_as_told(st, out);
}

pub proof fn lemma_finish_block(st: State, t: TerminatorView)
    requires
        sound(st),
        ends(st, t),
        leads_on(st, t),
    ensures
        sound(st.finish_block(t)),
        reaches(st, st.finish_block(t)),
        st.finish_block(t).stop == st.stop,
        st.finish_block(t).frame.next_block == st.frame.next_block,
        st.finish_block(t).frame.scopes == st.frame.scopes,
        st.finish_block(t).frame.types == st.frame.types,
        st.finish_block(t).frame.insts.len() == 0,
        st.finish_block(t).frame.blocks == st.frame.blocks.push(ended(st.frame, t)),
        block_ids(st.finish_block(t).frame.blocks) =~= tally(st.frame),
        forall|w: ValueId| unassigned(st, w) ==> #[trigger] unassigned(st.finish_block(t), w),
        forall|id: BlockId| leads(t, id) ==> #[trigger] is_target(st.finish_block(t), id),
{
    reveal(State::finish_block);
    reveal(sound);
    reveal(reaches);
    reveal(grows);
    reveal(unassigned);
    let out = st.finish_block(t);
    let block = ended(st.frame, t);
    let (n, blocks) = (st.frame.blocks.len() as int, out.frame.blocks);
    assert(out.frame.blocks.drop_last() =~= st.frame.blocks);
    assert(assigned(out.frame) =~= assigned(st.frame));
    assert(leads(blocks[n].terminator, BlockId(0)) == leads(t, BlockId(0)));
    assert forall|id: BlockId| leads(t, id) implies #[trigger] is_target(out, id) by {
        assert(leads(blocks[n].terminator, id));
    }
    if st.stop is None {
        assert forall|id: BlockId, i: int| #[trigger]
            led_to(st.frame.blocks, i, id) && i <= n implies led_to(blocks, i, id) by {
            let j = choose|j: int|
                0 <= j < i && leads((#[trigger] st.frame.blocks[j]).terminator, id);
            assert(blocks[j] == st.frame.blocks[j]);
        }
        if entered_once(blocks) {
            assert forall|i: int| 0 <= i < n implies !leads(
                (#[trigger] st.frame.blocks[i]).terminator,
                BlockId(0),
            ) by {
                assert(blocks[i] == st.frame.blocks[i]);
            }
            assert(!leads(blocks[n].terminator, BlockId(0)));
            assert forall|i: int, j: int|
                0 <= j <= i < blocks.len() && (
                #[trigger] blocks[i]).terminator is CondBr implies !leads(
                blocks[i].terminator,
                (#[trigger] blocks[j]).id,
            ) by {
                if i < n {
                    assert(blocks[i] == st.frame.blocks[i] && blocks[j] == st.frame.blocks[j]);
                } else if j < n {
                    lemma_id_counted(st.frame.blocks, j);
                    assert(blocks[j] == st.frame.blocks[j]);
                }
            }
        }
        assert(linked(out.frame));
        lemma_block_told(st, out, t);
        assert(block_in(block, bounds(st)));
        assert(blocks_in(out.frame.blocks, bounds(out)));
    }
}

/// Whether block parameters are values that nothing has assigned, each once.
pub open spec fn are_fresh(st: State, params: Seq<(ValueId, ProcTypeView)>) -> bool {
    st.stop is Some || {
        &&& typed_in(params, st.frame.types.len())
        &&& param_values(params).no_duplicates()
        &&& forall|i: int| 0 <= i < params.len() ==> unassigned(st, (#[trigger] params[i]).0)
    }
}

pub proof fn lemma_start_block(st: State, id: BlockId, params: Seq<(ValueId, ProcTypeView)>)
    requires
        sound(st),
        st.frame.insts.len() == 0,
        are_fresh(st, params),
        is_target(st, id),
        is_block(st, id),
    ensures
        sound(st.start_block(id, params)),
        reaches(st, st.start_block(id, params)),
        st.start_block(id, params).stop == st.stop,
        st.start_block(id, params).frame.next_block == st.frame.next_block,
        st.start_block(id, params).frame.blocks == st.frame.blocks,
        st.start_block(id, params).frame.scopes == st.frame.scopes,
        st.start_block(id, params).frame.current == id,
{
    reveal(State::start_block);
    reveal(sound);
    reveal(reaches);
    reveal(grows);
    reveal(unassigned);
    let out = st.start_block(id, params);
    if st.stop is None {
        let over = assigned_over(st.frame.blocks);
        let all = assigned(out.frame);
        assert(all =~= over + param_values(params));
        assert(assigned(st.frame) =~= over + param_values(st.frame.params));
        assert forall|i: int, j: int| 0 <= i < j < all.len() implies all[i] != all[j] by {
            if j < over.len() {
                assert(assigned(st.frame)[i] != assigned(st.frame)[j]);
            } else if i >= over.len() {
                assert(param_values(params)[i - over.len()] != param_values(params)[j
                    - over.len()]);
            } else {
                assert(unassigned(st, params[j - over.len()].0));
                assert(assigned(st.frame)[i] == all[i]);
            }
        }
        assert forall|i: int| 0 <= i < all.len() implies (#[trigger] all[i]).0
            < st.frame.types.len() by {
            if i < over.len() {
                assert(assigned(st.frame)[i] == all[i]);
            } else {
                assert(params[i - over.len()].0.0 < st.frame.types.len());
            }
        }
    }
}

/// Whether only the bindings have changed.
spec fn only_bindings(a: State, b: State) -> bool {
    &&& b == (State { frame: FrameView { scopes: b.frame.scopes, ..a.frame }, ..a })
    &&& a.stop is None ==> scopes_in(b.frame.scopes, a.frame.types.len())
}

proof fn lemma_bindings(a: State, b: State)
    requires
        sound(a),
        only_bindings(a, b),
    ensures
        sound(b),
        runs(a, b),
        forall|v: ValueId| unassigned(a, v) ==> #[trigger] unassigned(b, v),
{
    reveal(sound);
    reveal(runs);
    reveal(grows);
    reveal(unassigned);
    assert(tally(a.frame) =~= tally(a.frame).add(Multiset::empty()));
    assert(assigned(b.frame) == assigned(a.frame));
}

pub proof fn lemma_push_scope(st: State)
    requires
        sound(st),
    ensures
        sound(st.push_scope()),
        runs(st, st.push_scope()),
{
    reveal(State::push_scope);
    reveal(sound);
    lemma_bindings(st, st.push_scope());
}

pub proof fn lemma_pop_scope(st: State)
    requires
        sound(st),
    ensures
        sound(st.pop_scope()),
        runs(st, st.pop_scope()),
{
    reveal(State::pop_scope);
    reveal(sound);
    lemma_bindings(st, st.pop_scope());
}

proof fn lemma_put_in(s: Seq<(Name, Bound)>, name: Name, b: Bound, values: nat)
    requires
        forall|j: int| 0 <= j < s.len() ==> (#[trigger] s[j]).1.0.0 < values,
        b.0.0 < values,
    ensures
        forall|j: int|
            0 <= j < put_in(s, name, b).len() ==> (#[trigger] put_in(s, name, b)[j]).1.0.0 < values,
{
}

/// A layer's bindings with one more.
proof fn lemma_with_scope(st: State, l: int, scope: ScopeView)
    requires
        sound(st),
        0 <= l < st.frame.scopes.len(),
        st.stop is None ==> scope_in(scope, st.frame.types.len()),
    ensures
        sound(st.with_scope(l, scope)),
        runs(st, st.with_scope(l, scope)),
        forall|v: ValueId| unassigned(st, v) ==> #[trigger] unassigned(st.with_scope(l, scope), v),
{
    reveal(sound);
    lemma_bindings(st, st.with_scope(l, scope));
}

proof fn lemma_bound_scope(st: State, l: int, name: Name, b: Bound)
    requires
        sound(st),
        0 <= l < st.frame.scopes.len(),
        is_value(st, b.0),
    ensures
        st.stop is None ==> forall|j: int|
            0 <= j < put_in(st.frame.scopes[l].locals, name, b).len() ==> (
            #[trigger] put_in(st.frame.scopes[l].locals, name, b)[j]).1.0.0 < st.frame.types.len(),
{
    reveal(sound);
    if st.stop is None {
        assert(scope_in(st.frame.scopes[l], st.frame.types.len()));
        lemma_put_in(st.frame.scopes[l].locals, name, b, st.frame.types.len());
    }
}

pub proof fn lemma_bind(st: State, name: Name, v: ValueId, ty: ProcTypeView)
    requires
        sound(st),
        is_value(st, v),
    ensures
        sound(st.bind(name, v, ty)),
        runs(st, st.bind(name, v, ty)),
{
    reveal(State::bind);
    let n = st.frame.scopes.len();
    if n == 0 {
        lemma_runs_here(st);
    } else {
        let top = st.frame.scopes[n - 1];
        lemma_bound_scope(st, n - 1, name, (v, ty));
        lemma_with_scope(
            st,
            n - 1,
            ScopeView { locals: put_in(top.locals, name, (v, ty)), ..top },
        );
    }
}

pub proof fn lemma_rebind(st: State, name: Name, v: ValueId, ty: ProcTypeView)
    requires
        sound(st),
        is_value(st, v),
    ensures
        sound(st.rebind(name, v, ty)),
        runs(st, st.rebind(name, v, ty)),
        st.rebind(name, v, ty).stop == st.stop,
        st.rebind(name, v, ty).frame.insts == st.frame.insts,
        st.rebind(name, v, ty).frame.blocks == st.frame.blocks,
        st.rebind(name, v, ty).frame.current == st.frame.current,
        st.rebind(name, v, ty).frame.next_block == st.frame.next_block,
        st.rebind(name, v, ty).frame.types == st.frame.types,
        forall|w: ValueId| unassigned(st, w) ==> #[trigger] unassigned(st.rebind(name, v, ty), w),
{
    reveal(State::rebind);
    let l = last_layer(local_layers(st.frame.scopes), name);
    lemma_last_layer_bound(local_layers(st.frame.scopes), name);
    if l == 0 {
        lemma_runs_here(st);
    } else {
        let layer = st.frame.scopes[l - 1];
        lemma_bound_scope(st, l - 1, name, (v, ty));
        lemma_with_scope(
            st,
            l - 1,
            ScopeView { locals: put_in(layer.locals, name, (v, ty)), ..layer },
        );
    }
}

pub proof fn lemma_bind_pending(st: State, name: Name, v: ValueId, ty: ProcTypeView)
    requires
        sound(st),
        is_value(st, v),
    ensures
        sound(st.bind_pending(name, v, ty)),
        runs(st, st.bind_pending(name, v, ty)),
{
    reveal(State::bind_pending);
    let l = last_layer(pending_layers(st.frame.scopes), name);
    lemma_last_layer_bound(pending_layers(st.frame.scopes), name);
    if l == 0 {
        lemma_runs_here(st);
    } else {
        let layer = st.frame.scopes[l - 1];
        lemma_bound_scope(st, l - 1, name, (v, ty));
        lemma_with_scope(
            st,
            l - 1,
            ScopeView {
                locals: put_in(layer.locals, name, (v, ty)),
                pending: crate::lower::state::name_removed(layer.pending, name),
                ..layer
            },
        );
    }
}

pub proof fn lemma_add_pending(st: State, name: Name)
    requires
        sound(st),
    ensures
        sound(st.add_pending(name)),
        runs(st, st.add_pending(name)),
{
    reveal(State::add_pending);
    reveal(sound);
    let n = st.frame.scopes.len();
    if n == 0 {
        lemma_runs_here(st);
    } else {
        let top = st.frame.scopes[n - 1];
        lemma_with_scope(st, n - 1, ScopeView { pending: add_new(top.pending, name), ..top });
    }
}

pub proof fn lemma_bind_alias(st: State, name: Name, rel: RelView)
    requires
        sound(st),
    ensures
        sound(st.bind_alias(name, rel)),
        runs(st, st.bind_alias(name, rel)),
{
    reveal(State::bind_alias);
    reveal(sound);
    let n = st.frame.scopes.len();
    if n == 0 {
        lemma_runs_here(st);
    } else {
        let top = st.frame.scopes[n - 1];
        lemma_with_scope(st, n - 1, ScopeView { aliases: put_in(top.aliases, name, rel), ..top });
    }
}

pub proof fn lemma_bind_template(st: State, name: Name, chunks: Seq<ChunkView>)
    requires
        sound(st),
    ensures
        sound(st.bind_template(name, chunks)),
        runs(st, st.bind_template(name, chunks)),
{
    reveal(State::bind_template);
    reveal(sound);
    let n = st.frame.scopes.len();
    if n == 0 {
        lemma_runs_here(st);
    } else {
        let top = st.frame.scopes[n - 1];
        lemma_with_scope(
            st,
            n - 1,
            ScopeView { templates: put_in(top.templates, name, chunks), ..top },
        );
    }
}

/// A name is bound to a value.
pub proof fn lemma_local(st: State, name: Name)
    requires
        sound(st),
    ensures
        st.local(name) matches Some(b) ==> is_value(st, b.0),
{
    reveal(State::local);
    reveal(sound);
    let l = last_layer(local_layers(st.frame.scopes), name);
    lemma_last_layer_bound(local_layers(st.frame.scopes), name);
    if l > 0 && st.stop is None {
        let locals = st.frame.scopes[l - 1].locals;
        assert(scope_in(st.frame.scopes[l - 1], st.frame.types.len()));
        let i = name_index(keys_of(locals), name);
        if i < locals.len() {
            assert(locals[i as int].1.0.0 < st.frame.types.len());
        }
    }
}

/// The innermost layer binds names to values.
pub proof fn lemma_top_locals(st: State)
    requires
        sound(st),
    ensures
        forall|i: int|
            0 <= i < st.top_locals().len() ==> is_value(st, (#[trigger] st.top_locals()[i]).0),
{
    reveal(State::top_locals);
    reveal(sound);
    let n = st.frame.scopes.len();
    if n > 0 && st.stop is None {
        let locals = st.frame.scopes[n - 1].locals;
        assert(scope_in(st.frame.scopes[n - 1], st.frame.types.len()));
        assert forall|i: int| 0 <= i < st.top_locals().len() implies is_value(
            st,
            (#[trigger] st.top_locals()[i]).0,
        ) by {
            assert(locals[i].1.0.0 < st.frame.types.len());
        }
    }
}

pub proof fn lemma_own(st: State, v: ValueId)
    requires
        sound(st),
        is_value(st, v),
    ensures
        sound(st.own(v)),
        runs(st, st.own(v)),
{
    reveal(State::own);
    reveal(sound);
    reveal(runs);
    reveal(grows);
    assert(tally(st.frame) =~= tally(st.frame).add(Multiset::empty()));
    assert(assigned(st.own(v).frame) == assigned(st.frame));
}

/// What a function owns is a value.
pub proof fn lemma_owns(st: State, v: ValueId)
    requires
        sound(st),
        st.owns(v),
    ensures
        is_value(st, v),
{
    reveal(State::owns);
    reveal(sound);
    if st.stop is None {
        let i = choose|i: int| 0 <= i < st.frame.owned.len() && st.frame.owned[i] == v;
        assert(st.frame.owned[i].0 < st.frame.types.len());
    }
}

pub proof fn lemma_defer(st: State, v: ValueId)
    requires
        sound(st),
        is_value(st, v),
    ensures
        sound(st.defer(v)),
        runs(st, st.defer(v)),
{
    reveal(State::defer);
    reveal(sound);
    reveal(runs);
    reveal(grows);
    assert(tally(st.frame) =~= tally(st.frame).add(Multiset::empty()));
    assert(assigned(st.defer(v).frame) == assigned(st.frame));
}

proof fn lemma_releases_assign_nothing(s: Seq<InstView>, vs: Seq<ValueId>)
    ensures
        assigned_in(s + Seq::new(vs.len(), |i: int| InstView::Release { src: vs[i] }))
            == assigned_in(s),
    decreases vs.len(),
{
    let added = Seq::new(vs.len(), |i: int| InstView::Release { src: vs[i] });
    if vs.len() == 0 {
        assert(s + added =~= s);
    } else {
        let rest = vs.drop_last();
        let fewer = Seq::new(rest.len(), |i: int| InstView::Release { src: rest[i] });
        lemma_releases_assign_nothing(s, rest);
        assert((s + added).drop_last() =~= s + fewer);
        assert((s + added).last() == InstView::Release { src: vs.last() });
    }
}

pub proof fn lemma_release_deferred(st: State)
    requires
        sound(st),
    ensures
        sound(st.release_deferred()),
        runs(st, st.release_deferred()),
{
    reveal(State::release_deferred);
    reveal(sound);
    reveal(runs);
    reveal(grows);
    let vs = st.frame.deferred;
    let out = st.release_deferred();
    lemma_releases_assign_nothing(st.frame.insts, vs);
    assert(assigned(out.frame) == assigned(st.frame));
    let added = Seq::new(vs.len(), |i: int| InstView::Release { src: vs[i] });
    lemma_queried_concat(st.frame.insts, added, st.plans);
    lemma_none_queried(added, st.plans);
    assert(queried(out) =~= queried(st));
    lemma_as_told(st, out);
    reveal(filled);
    assert(tally(st.frame) =~= tally(st.frame).add(Multiset::empty()));
    if st.stop is None {
        assert forall|i: int| 0 <= i < out.frame.insts.len() implies inst_in(
            #[trigger] out.frame.insts[i],
            bounds(out),
        ) by {
            if i < st.frame.insts.len() {
                assert(inst_in(st.frame.insts[i], bounds(st)));
            } else {
                assert(vs[i - st.frame.insts.len()].0 < st.frame.types.len());
            }
        }
    }
}

pub proof fn lemma_heading_index(hs: Seq<HeadingView>, h: HeadingView)
    ensures
        heading_index(hs, h) <= hs.len(),
        heading_index(hs, h) < hs.len() ==> hs[heading_index(hs, h) as int] == h,
        hs.contains(h) ==> heading_index(hs, h) < hs.len(),
    decreases hs.len(),
{
    if hs.len() > 0 {
        let t = hs.drop_first();
        lemma_heading_index(t, h);
        if hs.contains(h) && hs[0] != h {
            let i = choose|i: int| 0 <= i < hs.len() && hs[i] == h;
            assert(t[i - 1] == h);
        }
    }
}

/// What stays the same for bounds that reach further.
proof fn lemma_tables_stay(a: State, b: State)
    requires
        sound(a),
        a.stop is None,
        b.env == a.env,
        b.frame == a.frame,
        within(bounds(a), bounds(b)),
    ensures
        functions_ok(a.functions, a.value_types, bounds(b)),
        frame_ok(b.frame, bounds(b)),
        env_ok(b.env, b.headings.len()),
        plans_ok(a.plans, b.headings.len()),
{
    reveal(sound);
    lemma_functions_stay(a.functions, a.value_types, bounds(a), bounds(b));
    lemma_frame_stays(a.frame, bounds(a), bounds(b));
}

pub proof fn lemma_intern(st: State, h: HeadingView)
    requires
        sound(st),
    ensures
        sound(st.intern(h).0),
        runs(st, st.intern(h).0),
        is_heading(st.intern(h).0, st.intern(h).1),
        st.intern(h).0.frame == st.frame,
        forall|w: ValueId| unassigned(st, w) ==> #[trigger] unassigned(st.intern(h).0, w),
{
    reveal(State::intern);
    reveal(State::halted);
    reveal(sound);
    reveal(runs);
    reveal(grows);
    reveal(unassigned);
    lemma_heading_index(st.headings, h);
    let out = st.intern(h).0;
    assert(tally(st.frame) =~= tally(st.frame).add(Multiset::empty()));
    if out.stop is None {
        lemma_tables_stay(st, out);
    }
}

proof fn lemma_key_index(keys: Seq<u64>, key: u64)
    ensures
        key_index(keys, key) <= keys.len(),
        keys.contains(key) ==> key_index(keys, key) < keys.len(),
        key_index(keys, key) < keys.len() ==> keys[key_index(keys, key) as int] == key,
    decreases keys.len(),
{
    if keys.len() > 0 {
        let t = keys.drop_first();
        lemma_key_index(t, key);
        if keys.contains(key) && keys[0] != key {
            let i = choose|i: int| 0 <= i < keys.len() && keys[i] == key;
            assert(t[i - 1] == key);
        }
    }
}

pub proof fn lemma_plan(st: State, q: QueryView, result: HeadingId)
    requires
        sound(st),
        is_heading(st, result),
        is_supplied(st, q),
        may_query(st),
    ensures
        sound(st.plan(q, result).0),
        runs(st, st.plan(q, result).0),
        st.plan(q, result).0.stop is Some || st.plan(q, result).1 < st.plan(
            q,
            result,
        ).0.plans.len(),
        st.plan(q, result).0.stop is None && texts_by_key(st.env.answers) ==> st.plan(
            q,
            result,
        ).0.plans[st.plan(q, result).1 as int].sql == q.text,
{
    reveal(State::plan);
    reveal(State::halted);
    reveal(sound);
    reveal(runs);
    reveal(grows);
    lemma_key_index(st.plan_keys, q.plan_key);
    let out = st.plan(q, result).0;
    assert(tally(st.frame) =~= tally(st.frame).add(Multiset::empty()));
    if out.stop is None {
        lemma_tables_stay(st, out);
        let b = bounds(st);
        lemma_queried_by_stays(st.functions, st.value_types, b, st.plans, out.plans);
        lemma_queried_over_stays(st.frame.blocks, b, st.plans, out.plans);
        lemma_queried_in_stays(st.frame.insts, b, st.plans, out.plans);
        lemma_as_told(st, out);
        let n = key_index(st.plan_keys, q.plan_key) as int;
        if n < st.plans.len() {
            assert(st.plans[n].plan_id == n);
            let answers = st.env.answers;
            assert(is_answer(answers, st.plan_keys[n], st.plans[n].sql));
            assert(is_answer(answers, q.plan_key, q.text));
            let i = choose|i: int|
                0 <= i < answers.len() && (#[trigger] answers[i] matches Some(p) && p.plan_key
                    == st.plan_keys[n] && p.text == st.plans[n].sql);
            let j = choose|j: int|
                0 <= j < answers.len() && (#[trigger] answers[j] matches Some(p) && p.plan_key
                    == q.plan_key && p.text == q.text);
            assert(answers[i] is Some && answers[j] is Some);
        }
        assert forall|i: int| 0 <= i < out.plans.len() implies is_answer(
            out.env.answers,
            out.plan_keys[i],
            (#[trigger] out.plans[i]).sql,
        ) by {
            if i < st.plans.len() {
                assert(out.plans[i] == st.plans[i]);
            }
        }
    }
}

pub proof fn lemma_declare(
    st: State,
    name: Name,
    linkage: Name,
    params: Seq<(Name, ProcTypeView)>,
    return_type: ProcTypeView,
)
    requires
        sound(st),
        linkage == symbol_for(name),
        name != "main"@,
        st.env.planned || !is_bracket(linkage),
    ensures
        sound(st.declare(name, linkage, params, return_type)),
        runs(st, st.declare(name, linkage, params, return_type)),
        st.stop is Some || has_symbol(
            st.declare(name, linkage, params, return_type).functions,
            linkage,
        ),
{
    reveal(State::declare);
    reveal(sound);
    reveal(runs);
    reveal(grows);
    let out = st.declare(name, linkage, params, return_type);
    assert(tally(st.frame) =~= tally(st.frame).add(Multiset::empty()));
    if st.stop is None {
        if st.seen.contains(name) {
            let i = choose|i: int| 0 <= i < st.seen.len() && st.seen[i] == name;
            assert(has_symbol(st.functions, symbol_for(st.seen[i])));
        } else {
            lemma_tables_stay(st, out);
            assert(out.functions.drop_last() =~= st.functions);
            assert(queried(out) =~= queried(st));
            lemma_as_told(st, out);
            assert(out.functions[out.functions.len() - 1].linkage_name == linkage);
            assert forall|i: int| 0 <= i < out.seen.len() implies has_symbol(
                out.functions,
                symbol_for(#[trigger] out.seen[i]),
            ) by {
                if i < st.seen.len() {
                    assert(has_symbol(st.functions, symbol_for(st.seen[i])));
                    lemma_symbol_stays(st.functions, out.functions, symbol_for(st.seen[i]));
                }
            }
            assert forall|i: int| 0 <= i < out.functions.len() implies function_ok(
                #[trigger] out.functions[i],
                out.value_types[i],
                bounds(out),
            ) by {
                if i < st.functions.len() {
                    assert(out.functions[i] == st.functions[i]);
                }
            }
        }
    }
}

/// A number of the type of a relation is that of a heading.
pub proof fn lemma_relation_id(st: State, v: ValueId)
    requires
        sound(st),
    ensures
        st.relation_id(v) matches Some(id) ==> is_heading(st, id) && is_type(
            st,
            ProcTypeView::Relation(id),
        ),
        is_type(st, st.type_of(v)),
{
    reveal(State::relation_id);
    reveal(State::type_of);
    reveal(sound);
    if st.stop is None && v.0 < st.frame.types.len() {
        assert(type_in(st.frame.types[v.0 as int], st.headings.len()));
    }
}

/// A new function begun: nothing of it is there yet.
proof fn lemma_empty_frame(b: Bounds)
    requires
        b.values == 0,
    ensures
        frame_ok(empty_frame(), b),
        assigned(empty_frame()) =~= Seq::<ValueId>::empty(),
{
}

pub proof fn lemma_enter(st: State)
    requires
        sound(st),
    ensures
        sound(st.enter()),
        grows(st, st.enter()),
        st.enter().stop == st.stop,
        st.enter().frame == (FrameView { outer: st.enter().frame.outer, ..empty_frame() }),
{
    reveal(State::enter);
    reveal(sound);
    reveal(grows);
    let out = st.enter();
    if st.stop is None {
        lemma_functions_stay(st.functions, st.value_types, bounds(st), bounds(out));
        lemma_empty_frame(bounds(out));
    }
}

/// Whether values have the first numbers, in order.
pub open spec fn numbered(vs: Seq<ValueId>) -> bool {
    forall|i: int| 0 <= i < vs.len() ==> (#[trigger] vs[i]).0 == i
}

/// Whether a function has its first block and no other, and no value but its
/// parameters.
pub open spec fn begun(st: State) -> bool {
    st.stop is None ==> {
        &&& st.frame.next_block == 1
        &&& tally(st.frame) == numbers(0, 1)
        &&& st.frame.blocks.len() == 0
        &&& st.frame.current.0 == 0
        &&& st.frame.params.len() == 0
        &&& numbered(st.frame.param_ids)
        &&& st.frame.types.len() == st.frame.param_ids.len()
    }
}

pub proof fn lemma_begin_body(st: State)
    requires
        sound(st),
        st.frame.next_block == 0,
        st.frame.blocks.len() == 0,
        st.frame.insts.len() == 0,
        st.stop is None ==> {
            &&& numbered(st.frame.param_ids)
            &&& st.frame.types.len() == st.frame.param_ids.len()
        },
    ensures
        sound(st.begin_body()),
        reaches(st, st.begin_body()),
        begun(st.begin_body()),
{
    broadcast use group_reaches;

    reveal(State::begin_body);
    let (mid, entry) = st.fresh_block();
    lemma_fresh_block(st);
    reveal(State::fresh_block);
    reveal(State::halted);
    assert(mid.frame.insts == st.frame.insts);
    assert(param_values(Seq::empty()) =~= Seq::<ValueId>::empty());
    lemma_start_block(mid, entry, Seq::empty());
    let out = mid.start_block(entry, Seq::empty());
    reveal(State::start_block);
    if out.stop is None {
        assert(out.frame.blocks =~= Seq::<BlockView>::empty());
        assert(numbers(0, 0) =~= Multiset::empty());
        assert(tally(out.frame) =~= numbers(0, 1));
    }
}

/// Whether every block of a function has ended.
pub open spec fn closed_body(st: State) -> bool {
    st.stop is None ==> {
        &&& block_ids(st.frame.blocks) == numbers(0, st.frame.next_block as nat)
        &&& st.frame.next_block > 0
        &&& entered_once(st.frame.blocks)
        &&& all_handed(st.frame.blocks)
        &&& all_given(st.frame.param_ids.len(), st.frame.blocks, st.frame.types)
    }
}

/// The values of a function whose last block ends.
proof fn lemma_body_given(first: State, last: State, t: TerminatorView)
    requires
        begun(first),
        runs(first, last),
        last.stop is None,
    ensures
        ({
            let f = last.finish_block(t).frame;
            all_given(f.param_ids.len(), f.blocks, f.types)
        }),
{
    reveal(State::finish_block);
    reveal(runs);
    reveal(grows);
    reveal(filled);
    let f = last.finish_block(t).frame;
    assert(f.blocks.drop_last() =~= last.frame.blocks);
    assert(assigned_over(f.blocks) =~= assigned(last.frame));
    assert forall|v: ValueId| v.0 < f.types.len() implies #[trigger] is_given(
        v,
        f.param_ids.len(),
        f.blocks,
        f.types,
    ) by {
        if v.0 >= first.frame.types.len() {
            assert(is_set(last.frame, v));
        }
    }
}

pub proof fn lemma_body_closes(first: State, last: State, t: TerminatorView)
    requires
        begun(first),
        runs(first, last),
        sound(last),
        ends(last, t),
        t is Return,
    ensures
        sound(last.finish_block(t)),
        reaches(last, last.finish_block(t)),
        closed_body(last.finish_block(t)),
{
    broadcast use group_reaches;

    lemma_finish_block(last, t);
    if last.stop is None {
        lemma_numbers_split(0, 1, last.frame.next_block as nat);
        reveal(in_shape);
        let counts = choose|counts: Map<u32, nat>| #[trigger]
            shaped(first.frame, last.frame, counts);
        let blocks = last.finish_block(t).frame.blocks;
        lemma_body_given(first, last, t);
        assert(blocks[0].params.len() == 0) by {
            reveal(sound);
            if last.frame.blocks.len() > 0 {
                assert(blocks[0] == last.frame.blocks[0]);
                assert(counted(first.frame, last.frame.blocks, 0, counts));
            }
        }
        assert forall|i: int, j: int|
            0 <= i < blocks.len() && 0 <= j < blocks.len() implies hands(
            (#[trigger] blocks[i]).terminator,
            (#[trigger] blocks[j]).id,
            blocks[j].params.len(),
        ) by {
            if i < last.frame.blocks.len() {
                assert(blocks[i] == last.frame.blocks[i]);
                assert(meets(last.frame.blocks[i].terminator, counts));
            }
            if j < last.frame.blocks.len() {
                assert(blocks[j] == last.frame.blocks[j]);
                assert(counted(first.frame, last.frame.blocks, j, counts));
            }
        }
    }
}

proof fn lemma_id_counted(s: Seq<BlockView>, i: int)
    requires
        0 <= i < s.len(),
    ensures
        block_ids(s).count(s[i].id.0) >= 1,
    decreases s.len(),
{
    if i < s.len() - 1 {
        lemma_id_counted(s.drop_last(), i);
    }
}

proof fn lemma_id_twice(s: Seq<BlockView>, i: int, j: int)
    requires
        0 <= i < j < s.len(),
        s[i].id == s[j].id,
    ensures
        block_ids(s).count(s[i].id.0) >= 2,
    decreases s.len(),
{
    if j < s.len() - 1 {
        lemma_id_twice(s.drop_last(), i, j);
    } else {
        lemma_id_counted(s.drop_last(), i);
    }
}

proof fn lemma_zero_once(n: nat)
    requires
        n <= u32::MAX + 1,
    ensures
        numbers(0, n).count(0) <= 1,
    decreases n,
{
    if n > 1 {
        lemma_zero_once((n - 1) as nat);
    } else if n == 1 {
        assert(numbers(0, 0) =~= Multiset::empty());
    }
}

/// Only the entry block has its number.
proof fn lemma_entry_once(s: Seq<BlockView>, n: nat)
    requires
        block_ids(s) == numbers(0, n),
        n <= u32::MAX + 1,
        s.len() > 0 ==> s[0].id.0 == 0,
    ensures
        forall|i: int| 0 < i < s.len() ==> (#[trigger] s[i]).id.0 != 0,
{
    assert forall|i: int| 0 < i < s.len() implies (#[trigger] s[i]).id.0 != 0 by {
        if s[i].id.0 == 0 {
            lemma_id_twice(s, 0, i);
            lemma_zero_once(n);
        }
    }
}

/// The blocks of a function that has ended are its body.
pub proof fn lemma_body_ok(st: State)
    requires
        sound(st),
        closed_body(st),
        st.stop is None,
    ensures
        body_ok(st.frame.blocks, bounds(st)),
        st.frame.blocks.len() == st.frame.next_block,
{
    reveal(sound);
    lemma_numbers_len(st.frame.next_block as nat);
    lemma_block_ids_len(st.frame.blocks);
    lemma_entry_once(st.frame.blocks, st.frame.next_block as nat);
    let over = assigned_over(st.frame.blocks);
    assert forall|i: int, j: int| 0 <= i < j < over.len() implies over[i] != over[j] by {
        assert(assigned(st.frame)[i] != assigned(st.frame)[j]);
    }
}

/// The queries of a helper function.
proof fn lemma_helper_told(outer: State, inner: State, out: State)
    requires
        outer.stop is None,
        sound(outer),
        inner.stop is None,
        tells(outer.enter(), inner),
        inner.frame.insts.len() == 0,
        out.functions.len() == inner.functions.len() + 1,
        out.functions.drop_last() == inner.functions,
        out.functions.last().blocks == inner.frame.blocks,
        out.frame == outer.frame,
        out.plans == inner.plans,
        out.relir == inner.relir,
        begins(inner.plans, outer.plans),
    ensures
        tells(outer, out),
{
    let first = outer.enter();
    reveal(State::enter);
    reveal(sound);
    reveal(tells);
    let b = bounds(outer);
    lemma_queried_over_stays(outer.frame.blocks, b, outer.plans, out.plans);
    lemma_queried_in_stays(outer.frame.insts, b, outer.plans, out.plans);
    let here = queried_here(outer.frame, outer.plans);
    assert(queried(outer) =~= queried(first).add(here));
    assert(queried(out) =~= queried(inner).add(here));
    let (p, r) = (entry_texts(outer.relir), entry_texts(out.relir));
    if texts_by_key(outer.env.answers) {
        assert(queried(inner).add(p).add(here) =~= queried(first).add(r).add(here));
        assert(queried(out).add(p) =~= queried(inner).add(p).add(here));
        assert(queried(outer).add(r) =~= queried(first).add(r).add(here));
    }
}

/// What is told up to the first block of a function, and from there on.
pub proof fn lemma_tells_through(a: State, b: State, c: State)
    requires
        grows(a, b),
        b.stop is None ==> tells(a, b),
        reaches(b, c),
    ensures
        c.stop is None ==> tells(a, c),
        c.stop is None ==> c.frame.param_ids == b.frame.param_ids,
{
    reveal(reaches);
    reveal(grows);
    if c.stop is None {
        lemma_tells_on(a, b, c);
    }
}

pub proof fn lemma_leave(
    outer: State,
    inner: State,
    name: Name,
    params: Seq<(Name, ProcTypeView)>,
    return_type: ProcTypeView,
)
    requires
        sound(outer),
        sound(inner),
        grows(outer, inner),
        inner.stop is None ==> tells(outer.enter(), inner),
        closed_body(inner),
        inner.stop is None ==> inner.frame.insts.len() == 0,
        inner.stop is None ==> inner.frame.param_ids.len() == params.len(),
        is_helper(name),
    ensures
        sound(inner.leave(outer.frame, name, params, return_type)),
        runs(outer, inner.leave(outer.frame, name, params, return_type)),
        grows(inner, inner.leave(outer.frame, name, params, return_type)),
        has_symbol(inner.leave(outer.frame, name, params, return_type).functions, name),
{
    reveal(State::leave);
    reveal(runs);
    assert(name != "main"@ && !is_bracket(name)) by {
        reveal_strlit("main");
        reveal_strlit("coddl_begin_tx");
        reveal_strlit("coddl_commit_tx");
        assert("main"@[0] == 'm' && "coddl_begin_tx"@[0] == 'c' && "coddl_commit_tx"@[0] == 'c');
    }
    let out = inner.leave(outer.frame, name, params, return_type);
    assert(out.functions[out.functions.len() - 1].linkage_name == name);
    assert(grows(inner, out)) by {
        reveal(grows);
    }
    lemma_grows_on(outer, inner, out);
    assert(tally(outer.frame) =~= tally(outer.frame).add(Multiset::empty()));
    reveal(grows);
    reveal(sound);
    if out.stop is None {
        lemma_body_ok(inner);
        lemma_functions_stay(inner.functions, inner.value_types, bounds(inner), bounds(out));
        lemma_frame_stays(outer.frame, bounds(outer), bounds(out));
        assert(out.functions.drop_last() =~= inner.functions);
        lemma_helper_told(outer, inner, out);
        assert(out.functions.drop_last() =~= inner.functions);
        let f = out.functions.last();
        let n = inner.frame.types.len();
        let of_inner = Bounds { values: n, ..bounds(inner) };
        let of_out = Bounds { values: n, ..bounds(out) };
        lemma_blocks_stay(
            f.blocks,
            Bounds { blocks: f.blocks.len(), ..of_inner },
            Bounds { blocks: f.blocks.len(), ..of_out },
        );
        assert(body_ok(f.blocks, of_out));
        assert(function_ok(f, inner.frame.types, bounds(out)));
        assert forall|i: int| 0 <= i < out.functions.len() implies function_ok(
            #[trigger] out.functions[i],
            out.value_types[i],
            bounds(out),
        ) by {
            if i < inner.functions.len() {
                assert(out.functions[i] == inner.functions[i]);
            }
        }
        assert forall|i: int| 0 <= i < out.seen.len() implies has_symbol(
            out.functions,
            symbol_for(#[trigger] out.seen[i]),
        ) by {
            assert(has_symbol(inner.functions, symbol_for(inner.seen[i])));
            lemma_symbol_stays(inner.functions, out.functions, symbol_for(inner.seen[i]));
        }
    }
}

} // verus!
