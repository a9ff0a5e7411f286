//! Loops run the rounds that they are written to run.

use crate::ast::{Block, Expr, ForRange, Stmt};
use crate::diag::Span;
use crate::ir::{
    BlockId, BlockView, ConstView, InstView, ProcTypeView, ScalarOp, TerminatorView, ValueId,
};
use crate::lower::assigned::assigned_in_block;
use crate::lower::lowering::{block_lowered, counted_loop, for_lowered, lowered};
use crate::lower::meaning::{
    inst_holds, is_scalar, is_scalar_inst, obeys, reckons, value_of, Machine, Site,
};
use crate::lower::running::{entered, follows, goes_to, visits, walks, Visit};
use crate::lower::scalar_laws::{
    bound_values, is_readable, law_scalars_are_computed, lemma_obeyed_before, lemma_same_names,
};
use crate::lower::state::State;
use crate::lower::steps::{
    carried_first, current_values, fresh_first, loop_closed, loop_opened, loop_var_bound,
    prior_values, rebound, rebound_first, sequence_bounds, var_params, LoopVar,
    Vars,
};
use crate::lower::valid::forms::lemma_lowered;
use crate::lower::valid::primitives::{group_reaches, group_runs};
use crate::lower::valid::steps::{is_loop_var, lemma_carried_first};
use crate::lower::valid::{
    assigned, assigned_in, assigned_over, begins, block_ids, counted, goes_on, grows, in_shape,
    is_value, leads, meets, numbers, param_values, runs, shaped, sound, tally,
};
use crate::rel_analysis::add_each;
use crate::text::Name;
use vstd::prelude::*;

verus! {

/// The values that a block assigns.
pub open spec fn assigns(b: BlockView) -> Seq<ValueId> {
    param_values(b.params) + assigned_in(b.insts)
}

/// Whether no block behind the first `k` assigns the value.
pub open spec fn kept_from(blocks: Seq<BlockView>, k: int, v: ValueId) -> bool {
    forall|i: int| k <= i < blocks.len() ==> !assigns(#[trigger] blocks[i]).contains(v)
}

/// The numbers of a counted loop's blocks.
pub struct LoopIds {
    pub header: BlockId,
    pub body: BlockId,
    pub exit: BlockId,
}

/// The values of a counted loop.
pub struct LoopValues {
    pub lo: ValueId,
    pub hi: ValueId,
    pub counter: ValueId,
    pub test: ValueId,
    pub one: ValueId,
    pub next: ValueId,
}

/// The block that enters the loop, and the one that tests the counter.
spec fn headed(blocks: Seq<BlockView>, k: int, v: LoopValues, ids: LoopIds) -> bool {
    &&& blocks[k].terminator matches TerminatorView::Br { target, args } && target == ids.header
        && args.len() > 0 && args[0] == v.lo
    &&& blocks[k].id != ids.header && blocks[k].id != ids.body
    &&& blocks[k + 1].id == ids.header
    &&& blocks[k + 1].params.len() > 0 && blocks[k + 1].params[0].0 == v.counter
    &&& blocks[k + 1].insts == seq![
        InstView::ScalarOp {
            dst: v.test,
            op: ScalarOp::LtEq,
            operand_type: ProcTypeView::Integer,
            lhs: v.counter,
            rhs: v.hi,
        },
    ]
    &&& blocks[k + 1].terminator == TerminatorView::CondBr {
        cond: v.test,
        then_block: ids.body,
        else_block: ids.exit,
    }
    &&& ids.header != ids.body && ids.body != ids.exit && ids.header != ids.exit
    &&& v.test != v.counter && v.test != v.hi && v.counter != v.hi
}

/// The body's blocks, of which the last one raises the counter and goes back.
spec fn bodied(blocks: Seq<BlockView>, k: int, v: LoopValues, ids: LoopIds) -> bool {
    let n = blocks.len();
    let last = blocks[n - 1];
    &&& blocks[k + 2].id == ids.body
    &&& forall|i: int|
        k + 2 < i < n ==> (#[trigger] blocks[i]).id != ids.header && blocks[i].id != ids.body
            && blocks[i].id != ids.exit
    &&& forall|i: int|
        k + 2 <= i < n - 1 ==> !leads((#[trigger] blocks[i]).terminator, ids.header) && !leads(
            blocks[i].terminator,
            ids.body,
        ) && !leads(blocks[i].terminator, ids.exit)
    &&& last.terminator matches TerminatorView::Br { target, args } && target == ids.header
        && args.len() > 0 && args[0] == v.next
    &&& last.insts.len() >= 2
    &&& last.insts[last.insts.len() - 2] matches InstView::Const { dst, value, .. } && dst == v.one
        && value == ConstView::Integer(1)
    &&& last.insts[last.insts.len() - 1] matches InstView::ScalarOp { dst, op, lhs, rhs, .. } && dst
        == v.next && op == ScalarOp::Add && lhs == v.counter && rhs == v.one
    &&& forall|i: int| k + 2 <= i < n ==> !assigns(#[trigger] blocks[i]).contains(v.counter)
    &&& forall|i: int| k + 2 <= i < n ==> !assigns(#[trigger] blocks[i]).contains(v.hi)
}

proof fn lemma_assigns(b: BlockView, v: ValueId)
    ensures
        assigns(b).contains(v) <==> param_values(b.params).contains(v) || assigned_in(
            b.insts,
        ).contains(v),
{
    let (s, t) = (param_values(b.params), assigned_in(b.insts));
    if s.contains(v) {
        let i = choose|i: int| 0 <= i < s.len() && s[i] == v;
        assert((s + t)[i] == v);
    }
    if t.contains(v) {
        let i = choose|i: int| 0 <= i < t.len() && t[i] == v;
        assert((s + t)[s.len() + i] == v);
    }
}

/// How far the loop has counted when the `j`th pass is made.
proof fn lemma_rounds(
    site: Site,
    blocks: Seq<BlockView>,
    k: int,
    v: LoopValues,
    ids: LoopIds,
    p: Seq<Visit>,
    j: int,
)
    requires
        0 <= k,
        k + 2 < blocks.len(),
        headed(blocks, k, v, ids),
        bodied(blocks, k, v, ids),
        !assigns(blocks[k + 1]).contains(v.hi),
        walks(site, blocks, k, p),
        0 < j < p.len(),
    ensures
        ({
            let (from, to) = ((p[0].after.cell)(v.lo), (p[0].after.cell)(v.hi));
            let n = entered(blocks, p, j + 1, ids.body);
            &&& (p[j].before.cell)(v.hi) == to && (p[j].after.cell)(v.hi) == to
            &&& (p[j].after.cell)(v.counter) == (p[j].before.cell)(v.counter)
            &&& p[j].at == k + 1 ==> (p[j].before.cell)(v.counter) == from + n && n >= 0 && (n == 0
                || from + n - 1 <= to)
            &&& p[j].at >= k + 2 ==> (p[j].before.cell)(v.counter) == from + n - 1 && n >= 1 && from
                + n - 1 <= to
        }),
    decreases j,
{
    let u = p[j - 1];
    let w = p[j];
    assert(follows(blocks, u, w) && visits(site, blocks, u) && visits(site, blocks, w));
    let b = blocks[w.at];
    reveal_with_fuel(entered, 3);
    lemma_assigns(blocks[k + 1], v.hi);
    lemma_assigns(b, v.hi);
    lemma_assigns(b, v.counter);
    let test = blocks[k + 1].insts[0];
    assert(assigned_in(blocks[k + 1].insts) =~= seq![v.test]) by {
        reveal_with_fuel(assigned_in, 2);
        assert(blocks[k + 1].insts.drop_last() =~= Seq::empty());
    }
    assert(!assigned_in(b.insts).contains(v.counter));
    if j == 1 {
        assert(w.at == k + 1);
        assert((w.before.cell)(b.params[0].0) == (u.after.cell)(v.lo));
    } else {
        lemma_rounds(site, blocks, k, v, ids, p, j - 1);
        if u.at == k + 1 {
            assert(is_scalar_inst(test));
            assert(inst_holds(site, u.after, test));
            assert(b.id == ids.body);
            assert(w.at == k + 2);
        } else if u.at == blocks.len() - 1 {
            let insts = blocks[u.at].insts;
            let (x, y) = (insts[insts.len() - 2], insts[insts.len() - 1]);
            assert(is_scalar_inst(x) && is_scalar_inst(y));
            assert(inst_holds(site, u.after, x) && inst_holds(site, u.after, y));
            assert(w.at == k + 1);
            assert((w.before.cell)(b.params[0].0) == (u.after.cell)(v.next));
        } else {
            assert(leads(blocks[u.at].terminator, b.id));
            assert(w.at > k + 2);
        }
    }
}

/// What a block assigns is assigned by the blocks together.
proof fn lemma_assigned_among(s: Seq<BlockView>, i: int, v: ValueId)
    requires
        0 <= i < s.len(),
        assigns(s[i]).contains(v),
    ensures
        assigned_over(s).contains(v),
    decreases s.len(),
{
    let t = assigned_over(s.drop_last());
    let own = assigns(s.last());
    assert(assigned_over(s) =~= t + own);
    if i == s.len() - 1 {
        let x = choose|x: int| 0 <= x < own.len() && own[x] == v;
        assert(assigned_over(s)[t.len() + x] == v);
    } else {
        lemma_assigned_among(s.drop_last(), i, v);
        let x = choose|x: int| 0 <= x < t.len() && t[x] == v;
        assert(assigned_over(s)[x] == v);
    }
}

/// What blocks assign together one of them assigns.
proof fn lemma_assigned_where(s: Seq<BlockView>, v: ValueId) -> (i: int)
    requires
        assigned_over(s).contains(v),
    ensures
        0 <= i < s.len(),
        assigns(s[i]).contains(v),
    decreases s.len(),
{
    let t = assigned_over(s.drop_last());
    let own = assigns(s.last());
    assert(assigned_over(s) =~= t + own);
    let x = choose|x: int| 0 <= x < assigned_over(s).len() && assigned_over(s)[x] == v;
    if x < t.len() {
        assert(t[x] == v);
        lemma_assigned_where(s.drop_last(), v)
    } else {
        assert(own[x - t.len()] == v);
        s.len() - 1
    }
}

/// No two blocks assign one value.
proof fn lemma_assigned_once(s: Seq<BlockView>, i: int, j: int, v: ValueId)
    requires
        assigned_over(s).no_duplicates(),
        0 <= i < j < s.len(),
        assigns(s[i]).contains(v),
    ensures
        !assigns(s[j]).contains(v),
    decreases s.len(),
{
    let t = assigned_over(s.drop_last());
    let own = assigns(s.last());
    let all = assigned_over(s);
    assert(all =~= t + own);
    if j == s.len() - 1 {
        lemma_assigned_among(s.drop_last(), i, v);
        let x = choose|x: int| 0 <= x < t.len() && t[x] == v;
        if own.contains(v) {
            let y = choose|y: int| 0 <= y < own.len() && own[y] == v;
            assert(all[x] == v && all[t.len() + y] == v);
        }
    } else {
        assert forall|x: int, y: int| 0 <= x < y < t.len() implies t[x] != t[y] by {
            assert(all[x] == t[x] && all[y] == t[y]);
        }
        lemma_assigned_once(s.drop_last(), i, j, v);
    }
}

/// New values for variables change nothing but the types.
pub proof fn lemma_fresh_frame(st: State, vars: Vars, n: nat)
    requires
        n <= vars.len(),
    ensures
        ({
            let (out, params) = fresh_first(st, vars, n);
            &&& out.frame.blocks == st.frame.blocks
            &&& out.frame.insts == st.frame.insts
            &&& out.frame.current == st.frame.current
            &&& out.frame.params == st.frame.params
            &&& out.frame.next_block == st.frame.next_block
            &&& out.frame.scopes == st.frame.scopes
            &&& out.env == st.env
            &&& out.stop is None ==> st.stop is None
            &&& params.len() == n
        }),
    decreases n,
{
    reveal(State::define);
    reveal(State::halted);
    if n > 0 {
        lemma_fresh_frame(st, vars, (n - 1) as nat);
    }
}

/// Variables pointed at other values change nothing but bindings.
pub proof fn lemma_rebound_frame(st: State, vars: Vars)
    ensures
        ({
            let out = rebound(st, vars);
            &&& out.frame.blocks == st.frame.blocks
            &&& out.frame.insts == st.frame.insts
            &&& out.frame.current == st.frame.current
            &&& out.frame.params == st.frame.params
            &&& out.frame.next_block == st.frame.next_block
            &&& out.frame.types == st.frame.types
            &&& out.stop == st.stop
        }),
{
    reveal(rebound);
    lemma_rebound_first_frame(st, vars, vars.len());
}

proof fn lemma_rebound_first_frame(st: State, vars: Vars, n: nat)
    ensures
        ({
            let out = rebound_first(st, vars, n);
            &&& out.frame.blocks == st.frame.blocks
            &&& out.frame.insts == st.frame.insts
            &&& out.frame.current == st.frame.current
            &&& out.frame.params == st.frame.params
            &&& out.frame.next_block == st.frame.next_block
            &&& out.frame.types == st.frame.types
            &&& out.stop == st.stop
        }),
    decreases n,
{
    reveal(State::rebind);
    if n > 0 {
        lemma_rebound_first_frame(st, vars, (n - 1) as nat);
    }
}

/// Finding the variables that a loop carries changes no code.
pub proof fn lemma_carried_frame(st: State, names: Seq<Name>, n: nat, span: Span)
    ensures
        carried_first(st, names, n, span).0.frame == st.frame,
        carried_first(st, names, n, span).0.stop == st.stop,
    decreases n,
{
    reveal(State::diagnose);
    if n > 0 {
        lemma_carried_frame(st, names, (n - 1) as nat, span);
    }
}

/// The two blocks that open a counted loop.
proof fn lemma_opened(
    st: State,
    lo: ValueId,
    hi: ValueId,
    carried: Vars,
    ids: LoopIds,
)
    requires
        loop_opened(st, lo, hi, carried, ids.header, ids.body, ids.exit).0.stop is None,
    ensures
        ({
            let (out, counter, params) = loop_opened(
                st,
                lo,
                hi,
                carried,
                ids.header,
                ids.body,
                ids.exit,
            );
            let k = st.frame.blocks.len() as int;
            let b = out.frame.blocks;
            &&& st.stop is None
            &&& counter.0 == st.frame.types.len()
            &&& b.len() == k + 2
            &&& begins(b, st.frame.blocks)
            &&& b[k].id == st.frame.current && b[k].params == st.frame.params && b[k].insts
                == st.frame.insts
            &&& b[k].terminator == TerminatorView::Br {
                target: ids.header,
                args: seq![lo] + prior_values(carried),
            }
            &&& b[k + 1].id == ids.header
            &&& b[k + 1].params == seq![(counter, ProcTypeView::Integer)] + var_params(params)
            &&& b[k + 1].insts.len() == 1
            &&& b[k + 1].insts[0] matches InstView::ScalarOp { dst, op, operand_type, lhs, rhs }
                && op == ScalarOp::LtEq && operand_type == ProcTypeView::Integer && lhs == counter
                && rhs == hi && b[k + 1].terminator == (TerminatorView::CondBr {
                cond: dst,
                then_block: ids.body,
                else_block: ids.exit,
            })
            &&& out.frame.current == ids.body
            &&& out.frame.params.len() == 0
            &&& out.frame.insts.len() == 0
            &&& out.frame.next_block == st.frame.next_block
        }),
{
    reveal(loop_opened);
    reveal(State::finish_block);
    reveal(State::start_block);
    reveal(State::define);
    reveal(State::halted);
    reveal(State::emit);
    let st1 = st.finish_block(
        TerminatorView::Br { target: ids.header, args: seq![lo] + prior_values(carried) },
    );
    let (st2, counter) = st1.define(ProcTypeView::Integer);
    let (st3, params) = fresh_first(st2, carried, carried.len());
    lemma_fresh_frame(st2, carried, carried.len());
    let st4 = st3.start_block(
        ids.header,
        seq![(counter, ProcTypeView::Integer)] + var_params(params),
    );
    lemma_rebound_frame(st4, params);
}

/// The value one, and the value of the raised counter.
spec fn raised(st: State) -> (ValueId, ValueId) {
    let (a, one) = st.constant(ConstView::Integer(1), ProcTypeView::Integer);
    (one, a.define(ProcTypeView::Integer).1)
}

/// The block that closes a counted loop.
proof fn lemma_closed(
    st: State,
    counter: ValueId,
    carried: Vars,
    params: Vars,
    ids: LoopIds,
)
    requires
        loop_closed(st, counter, carried, params, ids.header, ids.exit).stop is None,
    ensures
        ({
            let out = loop_closed(st, counter, carried, params, ids.header, ids.exit);
            let n = st.frame.blocks.len() as int;
            let b = out.frame.blocks;
            let m = st.frame.insts.len() as int;
            &&& st.stop is None
            &&& b.len() == n + 1
            &&& begins(b, st.frame.blocks)
            &&& b[n].id == st.frame.current
            &&& b[n].insts.len() == m + 2
            &&& b[n].insts[m] == InstView::Const {
                dst: raised(st).0,
                value: ConstView::Integer(1),
                ty: ProcTypeView::Integer,
            }
            &&& b[n].insts[m + 1] == InstView::ScalarOp {
                dst: raised(st).1,
                op: ScalarOp::Add,
                operand_type: ProcTypeView::Integer,
                lhs: counter,
                rhs: raised(st).0,
            }
            &&& b[n].terminator matches TerminatorView::Br { target, args } && target == ids.header
                && args.len() > 0 && args[0] == raised(st).1
            &&& out.frame.current == ids.exit
        }),
{
    reveal(loop_closed);
    reveal(State::constant);
    reveal(State::finish_block);
    reveal(State::start_block);
    reveal(State::define);
    reveal(State::halted);
    reveal(State::emit);
    let (st1, one) = st.constant(ConstView::Integer(1), ProcTypeView::Integer);
    let (st2, next) = st1.define(ProcTypeView::Integer);
    let st3 = st2.emit(
        InstView::ScalarOp {
            dst: next,
            op: ScalarOp::Add,
            operand_type: ProcTypeView::Integer,
            lhs: counter,
            rhs: one,
        },
    );
    let st4 = st3.finish_block(
        TerminatorView::Br { target: ids.header, args: seq![next] + current_values(st3, carried) },
    );
    lemma_rebound_frame(st4.start_block(ids.exit, Seq::empty()), params);
}

/// The numbers of the blocks of a loop that is lowered next.
pub open spec fn loop_ids(st: State) -> LoopIds {
    LoopIds {
        header: BlockId(st.frame.next_block),
        body: BlockId((st.frame.next_block + 1) as u32),
        exit: BlockId((st.frame.next_block + 2) as u32),
    }
}

/// The counter of a loop that is lowered next: the first new value.
pub open spec fn loop_counter(st: State) -> ValueId {
    ValueId(st.frame.types.len() as u32)
}

/// Whether a value is assigned before the loop, or, as a parameter of the function,
/// nowhere in the code.
pub open spec fn is_settled(st: State, out: State, v: ValueId) -> bool {
    assigned(st.frame).contains(v) || !assigned(out.frame).contains(v)
}

/// The code of a counted loop.
proof fn lemma_counted(
    st: State,
    lo: ValueId,
    hi: ValueId,
    body: Block,
    span: Span,
    var: LoopVar,
) -> (v: LoopValues)
    requires
        sound(st),
        is_value(st, lo),
        is_value(st, hi),
        is_loop_var(st, var),
        st.frame.current.0 < st.frame.next_block,
        counted_loop(st, lo, hi, body, span, var).stop is None,
        is_settled(st, counted_loop(st, lo, hi, body, span, var), hi),
    ensures
        ({
            let blocks = counted_loop(st, lo, hi, body, span, var).frame.blocks;
            let k = st.frame.blocks.len() as int;
            &&& k + 2 < blocks.len()
            &&& headed(blocks, k, v, loop_ids(st))
            &&& bodied(blocks, k, v, loop_ids(st))
            &&& !assigns(blocks[k + 1]).contains(hi)
            &&& v.lo == lo && v.hi == hi && v.counter == loop_counter(st)
            &&& counted_loop(st, lo, hi, body, span, var).frame.current == loop_ids(st).exit
        }),
{
    broadcast use {group_runs, group_reaches};

    let names = add_each(Seq::empty(), assigned_in_block(body));
    lemma_carried_first(st, names, names.len(), span);
    lemma_carried_frame(st, names, names.len(), span);
    let (st1, carried) = carried_first(st, names, names.len(), span);
    let (st2, header) = st1.fresh_block();
    let (st3, body_id) = st2.fresh_block();
    let (st4, exit) = st3.fresh_block();
    let ids = loop_ids(st);
    let (st5, counter, params) = loop_opened(st4, lo, hi, carried, header, body_id, exit);
    let st7 = loop_var_bound(st5.push_scope(), var, counter);
    let (st8, _) = block_lowered(st7, body);
    let st9 = st8.release_scope().pop_scope();
    let out = loop_closed(st9, counter, carried, params, header, exit);
    assert(out == counted_loop(st, lo, hi, body, span, var));
    let given = LoopIds { header, body: body_id, exit };
    lemma_closed(st9, counter, carried, params, given);
    crate::lower::valid::forms::lemma_counted_parts(st, lo, hi, body, span, var);
    assert(st5.stop is None) by {
        reveal(runs);
        reveal(grows);
    }
    lemma_opened(st4, lo, hi, carried, given);
    assert(given == ids && st4.frame.blocks == st.frame.blocks && st4.frame.insts == st.frame.insts
        && st4.frame.types == st.frame.types && st4.frame.params == st.frame.params
        && st4.frame.current == st.frame.current && st4.frame.next_block == st.frame.next_block + 3)
        by {
        reveal(State::fresh_block);
        reveal(State::halted);
    }
    let blocks = out.frame.blocks;
    let k = st.frame.blocks.len() as int;
    let n = blocks.len() as int;
    let test = match blocks[k + 1].insts[0] {
        InstView::ScalarOp { dst, .. } => dst,
        _ => counter,
    };
    let v = LoopValues { lo, hi, counter, test, one: raised(st9).0, next: raised(st9).1 };
    assert(begins(st9.frame.blocks, st5.frame.blocks)) by {
        reveal(runs);
    }
    assert(blocks[k] == st5.frame.blocks[k] && blocks[k + 1] == st5.frame.blocks[k + 1]) by {
        assert(st9.frame.blocks[k] == st5.frame.blocks[k]);
        assert(st9.frame.blocks[k + 1] == st5.frame.blocks[k + 1]);
    }
    assert(blocks[k + 1].insts =~= seq![
        InstView::ScalarOp {
            dst: test,
            op: ScalarOp::LtEq,
            operand_type: ProcTypeView::Integer,
            lhs: counter,
            rhs: hi,
        },
    ]);
    // Each value is assigned once.
    assert(assigned_over(blocks).no_duplicates()) by {
        reveal(sound);
        let all = assigned(out.frame);
        let own = assigned_over(blocks);
        assert forall|i: int, j: int| 0 <= i < j < own.len() implies own[i] != own[j] by {
            assert(all[i] == own[i] && all[j] == own[j]);
        }
    }
    let own = assigns(blocks[k + 1]);
    assert(assigned_in(blocks[k + 1].insts) =~= seq![test]) by {
        reveal_with_fuel(assigned_in, 2);
        assert(blocks[k + 1].insts.drop_last() =~= Seq::empty());
    }
    assert(own[0] == counter);
    assert(own[own.len() - 1] == test);
    assert(own.contains(counter) && own.contains(test));
    lemma_own_once(blocks, k + 1);
    assert(test != counter);
    assert forall|i: int| k + 2 <= i < n implies !assigns(#[trigger] blocks[i]).contains(counter) by {
        lemma_assigned_once(blocks, k + 1, i, counter);
    }
    assert(kept_from(blocks, k + 1, hi)) by {
        if assigned(st.frame).contains(hi) {
            let j = lemma_assigned_before(st.frame, blocks, hi);
            assert forall|i: int| k + 1 <= i < blocks.len() implies !assigns(
                #[trigger] blocks[i],
            ).contains(hi) by {
                lemma_assigned_once(blocks, j, i, hi);
            }
        } else {
            assert forall|i: int| k + 1 <= i < blocks.len() implies !assigns(
                #[trigger] blocks[i],
            ).contains(hi) by {
                if assigns(blocks[i]).contains(hi) {
                    lemma_assigned_among(blocks, i, hi);
                    let own = assigned_over(blocks);
                    let x = choose|x: int| 0 <= x < own.len() && own[x] == hi;
                    assert(assigned(out.frame)[x] == hi);
                }
            }
        }
    }
    // The body's blocks lead to each other alone.
    assert(in_shape(st5.frame, st9.frame)) by {
        reveal(runs);
    }
    reveal(in_shape);
    let counts = choose|counts: Map<u32, nat>| #[trigger]
        shaped(st5.frame, st9.frame, counts);
    assert forall|i: int| k + 2 <= i < n - 1 implies !leads(
        (#[trigger] blocks[i]).terminator,
        ids.header,
    ) && !leads(blocks[i].terminator, ids.body) && !leads(blocks[i].terminator, ids.exit) by {
        assert(blocks[i] == st9.frame.blocks[i]);
        assert(meets(st9.frame.blocks[i].terminator, counts));
    }
    assert forall|i: int| k + 2 < i < n implies (#[trigger] blocks[i]).id != ids.header
        && blocks[i].id != ids.body && blocks[i].id != ids.exit by {
        if i < n - 1 {
            assert(blocks[i] == st9.frame.blocks[i]);
            assert(counted(st5.frame, st9.frame.blocks, i, counts));
        }
    }
    assert(blocks[k + 2].id == ids.body) by {
        if n - 1 > k + 2 {
            assert(goes_on(st5.frame, st9.frame)) by {
                reveal(runs);
            }
            assert(blocks[k + 2] == st9.frame.blocks[k + 2]);
            lemma_first_block(st5, st9, counts);
        }
    }
    v
}

/// Blocks of other numbers do not change how often a number occurs.
proof fn lemma_ids_kept(s: Seq<BlockView>, k: int, id: u32)
    requires
        0 <= k <= s.len(),
        forall|i: int| k <= i < s.len() ==> (#[trigger] s[i]).id.0 != id,
    ensures
        block_ids(s).count(id) == block_ids(s.take(k)).count(id),
    decreases s.len(),
{
    if k == s.len() {
        assert(s.take(k) =~= s);
    } else {
        let t = s.drop_last();
        assert forall|i: int| k <= i < t.len() implies (#[trigger] t[i]).id.0 != id by {
            assert(t[i] == s[i]);
        }
        lemma_ids_kept(t, k, id);
        assert(t.take(k) =~= s.take(k));
        assert(s.last() == s[s.len() - 1]);
    }
}

/// The first block that is ended is the one that was current.
proof fn lemma_first_block(a: State, b: State, counts: Map<u32, nat>)
    requires
        runs(a, b),
        b.stop is None,
        shaped(a.frame, b.frame, counts),
        a.frame.blocks.len() < b.frame.blocks.len(),
        a.frame.current.0 < a.frame.next_block,
    ensures
        b.frame.blocks[a.frame.blocks.len() as int].id == a.frame.current,
{
    let k = a.frame.blocks.len() as int;
    let id = a.frame.current.0;
    if b.frame.blocks[k].id != a.frame.current {
        reveal(runs);
        assert forall|i: int| k <= i < b.frame.blocks.len() implies (
        #[trigger] b.frame.blocks[i]).id.0 != id by {
            assert(counted(a.frame, b.frame.blocks, i, counts));
        }
        lemma_ids_kept(b.frame.blocks, k, id);
        assert(b.frame.blocks.take(k) =~= a.frame.blocks);
        assert(tally(b.frame).count(id) == block_ids(a.frame.blocks).count(id));
        assert(tally(a.frame).count(id) == block_ids(a.frame.blocks).count(id) + 1);
        assert(tally(b.frame).count(id) == tally(a.frame).count(id) + numbers(
            a.frame.next_block as nat,
            b.frame.next_block as nat,
        ).count(id));
    }
}

/// Each value is assigned once inside a block.
proof fn lemma_own_once(s: Seq<BlockView>, i: int)
    requires
        assigned_over(s).no_duplicates(),
        0 <= i < s.len(),
    ensures
        assigns(s[i]).no_duplicates(),
    decreases s.len(),
{
    let t = assigned_over(s.drop_last());
    let own = assigns(s.last());
    let all = assigned_over(s);
    assert(all =~= t + own);
    if i == s.len() - 1 {
        assert forall|x: int, y: int| 0 <= x < y < own.len() implies own[x] != own[y] by {
            assert(all[t.len() + x] == own[x] && all[t.len() + y] == own[y]);
        }
    } else {
        assert forall|x: int, y: int| 0 <= x < y < t.len() implies t[x] != t[y] by {
            assert(all[x] == t[x] && all[y] == t[y]);
        }
        lemma_own_once(s.drop_last(), i);
    }
}

/// What is assigned when a loop is entered is assigned by the blocks up to the one
/// that enters it.
proof fn lemma_assigned_before(
    f: crate::lower::state::FrameView,
    blocks: Seq<BlockView>,
    v: ValueId,
) -> (j: int)
    requires
        assigned(f).contains(v),
        begins(blocks, f.blocks),
        f.blocks.len() < blocks.len(),
        blocks[f.blocks.len() as int].params == f.params,
        blocks[f.blocks.len() as int].insts == f.insts,
    ensures
        0 <= j <= f.blocks.len(),
        assigns(blocks[j]).contains(v),
{
    let k = f.blocks.len() as int;
    let s = assigned_over(f.blocks);
    let own = assigns(blocks[k]);
    assert(assigned(f) =~= s + own);
    let x = choose|x: int| 0 <= x < assigned(f).len() && assigned(f)[x] == v;
    if x < s.len() {
        assert(s[x] == v);
        let j = lemma_assigned_where(f.blocks, v);
        assert(blocks[j] == f.blocks[j]);
        j
    } else {
        assert(own[x - s.len()] == v);
        k
    }
}

/// A counted loop runs its body once for each number from the lower to the upper
/// bound, both included, in rising order: the counter is the lower bound in the first
/// round, one more in each round after, and never above the upper bound; and when
/// control leaves the loop, as many rounds have been made as there are numbers.
pub proof fn law_counted_loops_run_each_round(
    site: Site,
    st: State,
    lo: ValueId,
    hi: ValueId,
    body: Block,
    span: Span,
    var: LoopVar,
    p: Seq<Visit>,
    j: int,
)
    requires
        sound(st),
        is_value(st, lo),
        is_value(st, hi),
        is_loop_var(st, var),
        st.frame.current.0 < st.frame.next_block,
        counted_loop(st, lo, hi, body, span, var).stop is None,
        is_settled(st, counted_loop(st, lo, hi, body, span, var), hi),
        walks(
            site,
            counted_loop(st, lo, hi, body, span, var).frame.blocks,
            st.frame.blocks.len() as int,
            p,
        ),
        0 <= j < p.len(),
    ensures
        ({
            let out = counted_loop(st, lo, hi, body, span, var);
            let blocks = out.frame.blocks;
            let (from, to) = ((p[0].after.cell)(lo), (p[0].after.cell)(hi));
            let first = loop_ids(st).body;
            let before = entered(blocks, p, j, first);
            &&& blocks[p[j].at].id == first ==> (p[j].before.cell)(loop_counter(st)) == from
                + before && from + before <= to
            &&& goes_to(blocks[p[j].at].terminator, p[j].after) == Some(out.frame.current)
                ==> entered(blocks, p, j + 1, first) == if from <= to {
                to - from + 1
            } else {
                0
            }
        }),
{
    let v = lemma_counted(st, lo, hi, body, span, var);
    let blocks = counted_loop(st, lo, hi, body, span, var).frame.blocks;
    let k = st.frame.blocks.len() as int;
    let ids = loop_ids(st);
    assert(visits(site, blocks, p[j]));
    if j > 0 {
        lemma_rounds(site, blocks, k, v, ids, p, j);
        if p[j].at == k + 1 {
            let test = blocks[k + 1].insts[0];
            assert(is_scalar_inst(test));
            assert(inst_holds(site, p[j].after, test));
        }
    }
}

/// The state in which a loop's bounds have been computed, and the bounds.
pub open spec fn bounded(st: State, low: Expr, high: Expr) -> (State, ValueId, ValueId) {
    let (a, lo) = lowered(st, low);
    let (b, hi) = lowered(a, high);
    (b, lo, hi)
}

/// A `for` loop from one number to another runs its body once for each number from the
/// value of the first expression to that of the second, both included, in rising order.
pub proof fn law_for_loops_count_as_written(
    site: Site,
    st: State,
    low: Expr,
    high: Expr,
    s: Stmt,
    p: Seq<Visit>,
    j: int,
)
    requires
        sound(st),
        s matches Stmt::For { over: ForRange::Counted { low: x, high: y }, .. } && x == low && y
            == high,
        is_scalar(low) && is_scalar(high),
        is_readable(st, low) && is_readable(st, high),
        st.frame.current.0 < st.frame.next_block,
        for_lowered(st, s).stop is None,
        is_settled(bounded(st, low, high).0, for_lowered(st, s), bounded(st, low, high).2),
        walks(site, for_lowered(st, s).frame.blocks, st.frame.blocks.len() as int, p),
        0 <= j < p.len(),
    ensures
        ({
            let out = for_lowered(st, s);
            let blocks = out.frame.blocks;
            let names = bound_values(st, p[0].after);
            let from = value_of(site.codes, low, names);
            let to = value_of(site.codes, high, names);
            let first = loop_ids(st).body;
            let before = entered(blocks, p, j, first);
            &&& blocks[p[j].at].id == first ==> (p[j].before.cell)(
                loop_counter(bounded(st, low, high).0),
            ) == from + before && from + before <= to
            &&& goes_to(blocks[p[j].at].terminator, p[j].after) == Some(out.frame.current)
                ==> entered(blocks, p, j + 1, first) == if from <= to {
                to - from + 1
            } else {
                0
            }
        }),
{
    if let Stmt::For { span, name, over, body } = s {
        let m = p[0].after;
        let (a, lo) = lowered(st, low);
        let (b, hi) = lowered(a, high);
        lemma_lowered(st, low);
        lemma_lowered(a, high);
        law_scalars_are_computed(site, m, st, low);
        lemma_same_names(st, a);
        law_scalars_are_computed(site, m, a, high);
        assert(bound_values(a, m) =~= bound_values(st, m));
        let var = LoopVar::Counter(name@);
        let out = counted_loop(b, lo, hi, body, span, var);
        assert(out == for_lowered(st, s));
        assert(is_value(b, lo)) by {
            reveal(runs);
            reveal(grows);
        }
        law_counted_loops_run_each_round(site, b, lo, hi, body, span, var, p, j);
        let blocks = out.frame.blocks;
        let k = st.frame.blocks.len() as int;
        lemma_entering(b, lo, hi, body, span, var);
        assert(visits(site, blocks, p[0]));
        lemma_obeyed_before(site, m, a.frame.insts, b.frame.insts);
    }
}

/// The block that enters a counted loop is the one that was current.
proof fn lemma_entering(
    st: State,
    lo: ValueId,
    hi: ValueId,
    body: Block,
    span: Span,
    var: LoopVar,
)
    requires
        sound(st),
        is_value(st, lo),
        is_value(st, hi),
        is_loop_var(st, var),
        counted_loop(st, lo, hi, body, span, var).stop is None,
    ensures
        counted_loop(st, lo, hi, body, span, var).frame.blocks.len() > st.frame.blocks.len(),
        counted_loop(st, lo, hi, body, span, var).frame.blocks[st.frame.blocks.len() as int].insts
            == st.frame.insts,
{
    let names = add_each(Seq::empty(), assigned_in_block(body));
    lemma_carried_frame(st, names, names.len(), span);
    let (st1, carried) = carried_first(st, names, names.len(), span);
    let (st2, header) = st1.fresh_block();
    let (st3, body_id) = st2.fresh_block();
    let (st4, exit) = st3.fresh_block();
    let (st5, counter, params) = loop_opened(st4, lo, hi, carried, header, body_id, exit);
    let (st8, _) = block_lowered(loop_var_bound(st5.push_scope(), var, counter), body);
    let st9 = st8.release_scope().pop_scope();
    let given = LoopIds { header, body: body_id, exit };
    lemma_closed(st9, counter, carried, params, given);
    crate::lower::valid::forms::lemma_counted_parts(st, lo, hi, body, span, var);
    assert(st5.stop is None && begins(st9.frame.blocks, st5.frame.blocks)) by {
        reveal(runs);
        reveal(grows);
    }
    lemma_opened(st4, lo, hi, carried, given);
    assert(st4.frame.blocks == st.frame.blocks && st4.frame.insts == st.frame.insts) by {
        reveal(State::fresh_block);
        reveal(State::halted);
    }
    let k = st.frame.blocks.len() as int;
    assert(st9.frame.blocks[k] == st5.frame.blocks[k]);
}

/// The loop's variable is the counter, or the element that the counter counts to.
pub proof fn law_loop_variables_follow_the_counter(
    site: Site,
    m: Machine,
    st: State,
    var: LoopVar,
    counter: ValueId,
)
    requires
        st.frame.scopes.len() > 0,
        loop_var_bound(st, var, counter).stop is None,
        obeys(site, m, loop_var_bound(st, var, counter).frame.insts),
        var matches LoopVar::Element { ty, .. } ==> !(ty is Tuple),
    ensures
        var matches LoopVar::Counter(name) ==> loop_var_bound(st, var, counter).local(name) == Some(
            (counter, ProcTypeView::Integer),
        ),
        var matches LoopVar::Element { seq, ty, name } ==> {
            let b = loop_var_bound(st, var, counter).local(name);
            &&& b matches Some((v, t)) && t == ty && (m.cell)(v) == (m.element)(seq, (m.cell)(counter), 0)
        },
{
    reveal(loop_var_bound);
    match var {
        LoopVar::Counter(name) => {
            lemma_bound_here(st, name, counter, ProcTypeView::Integer);
        },
        LoopVar::Element { seq, ty, name } => {
            reveal(State::element);
            reveal(State::scalar_element);
            reveal(State::define);
            reveal(State::halted);
            reveal(State::emit);
            reveal(State::declare);
            reveal(State::own);
            reveal(State::bind);
            reveal_strlit("coddl_seq_index");
            reveal_strlit("coddl_rc_length");
            let (a, v) = st.element(seq, counter, ty);
            lemma_bound_here(a, name, v, ty);
            let insts = loop_var_bound(st, var, counter).frame.insts;
            let n = st.frame.insts.len() as int;
            assert("coddl_seq_index"@ != "coddl_rc_length"@) by {
                assert("coddl_seq_index"@[6] == 's' && "coddl_rc_length"@[6] == 'r');
            }
            assert(inst_holds(site, m, insts[n]));
            assert(inst_holds(site, m, insts[n + 1]));
        },
    }
}

/// A name that was just bound.
proof fn lemma_bound_here(st: State, name: Name, v: ValueId, ty: ProcTypeView)
    requires
        st.frame.scopes.len() > 0,
    ensures
        st.bind(name, v, ty).local(name) == Some((v, ty)),
{
    reveal(State::bind);
    reveal(State::local);
    reveal_with_fuel(crate::lower::state::last_layer, 2);
    let out = st.bind(name, v, ty);
    let n = st.frame.scopes.len() as int;
    let locals = out.frame.scopes[n - 1].locals;
    crate::lower::update_laws::lemma_find_put(
        st.frame.scopes[n - 1].locals,
        name,
        (v, ty),
        name,
    );
    let keys = crate::lower::state::keys_of(locals);
    crate::lower::state::lemma_name_index(keys, name);
    assert(crate::lower::state::local_layers(out.frame.scopes).last() == keys);
}

/// The bounds of a loop over a sequence are zero and one less than its length.
pub proof fn law_sequence_loops_reach_every_index(
    site: Site,
    m: Machine,
    st: State,
    seq: ValueId,
)
    requires
        reckons(site, m, sequence_bounds(st, seq).0.frame.insts),
    ensures
        (m.cell)(sequence_bounds(st, seq).1) == 0,
        (m.cell)(sequence_bounds(st, seq).2) == (m.length)(seq) - 1,
{
    reveal(sequence_bounds);
    reveal(State::declare);
    reveal(State::constant);
    reveal(State::define);
    reveal(State::halted);
    reveal(State::emit);
    let insts = sequence_bounds(st, seq).0.frame.insts;
    let n = st.frame.insts.len() as int;
    assert(insts.len() == n + 4);
    assert(is_scalar_inst(insts[n]) && is_scalar_inst(insts[n + 1]));
    assert(is_scalar_inst(insts[n + 2]) && is_scalar_inst(insts[n + 3]));
    assert(inst_holds(site, m, insts[n]) && inst_holds(site, m, insts[n + 1]));
    assert(inst_holds(site, m, insts[n + 2]) && inst_holds(site, m, insts[n + 3]));
}

} // verus!
