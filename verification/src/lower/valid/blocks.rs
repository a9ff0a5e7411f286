//! Blocks that are begun are ended.

use crate::ir::{
    BlockId, BlockView, ConstView, InstView, ProcTypeView, ScalarOp, TerminatorView, ValueId,
};
use crate::lower::lowering::merged;
use crate::lower::state::{FrameView, State};
use crate::lower::steps::{
    current_values, fresh_first, loop_closed, loop_opened, prior_values, rebound, var_params, Vars,
};
use crate::lower::valid::patterns::lemma_constant;
use crate::lower::valid::primitives::{
    are_fresh, ended, group_reaches, is_type, leads_on, lemma_begins, lemma_closes, lemma_define,
    lemma_define_emit, lemma_filled_on, lemma_finish_block, lemma_fresh_block, lemma_numbers_split,
    lemma_own, lemma_runs_here, lemma_shaped_on, lemma_start_block, lemma_target_later, reaches,
};
use crate::lower::valid::steps::{
    are_plain, are_vars, lemma_current_values, lemma_fresh_count, lemma_fresh_first,
    lemma_prior_values, lemma_rebound, only_defined,
};
use crate::lower::valid::{
    are_values, assigned, assigned_over, begins, block_ids, counted, filled, grows, in_shape,
    is_block, is_set, is_target, is_value, meets, numbers, param_values, runs, shaped, sound,
    tally, unassigned,
};
use vstd::multiset::Multiset;
use vstd::prelude::*;

verus! {

/// Whether a state is reached with these blocks left to begin, and the blocks
/// so far fit together with those of these parameter counts.
#[verifier::opaque]
pub open spec fn leaves(a: State, b: State, open: Multiset<u32>, counts: Map<u32, nat>) -> bool {
    &&& reaches(a, b)
    &&& b.stop is None ==> {
        &&& tally(b.frame).add(open) == tally(a.frame).add(
            numbers(a.frame.next_block as nat, b.frame.next_block as nat),
        )
        &&& exists|all: Map<u32, nat>|
            counts.submap_of(all) && #[trigger] shaped(a.frame, b.frame, all)
        &&& filled(a.frame, b.frame)
    }
}

/// Whether the new values are those of block parameters.
#[verifier::opaque]
pub open spec fn handed_on(
    b: FrameView,
    c: FrameView,
    params: Seq<(ValueId, ProcTypeView)>,
) -> bool {
    &&& begins(c.types, b.types)
    &&& forall|v: ValueId|
        b.types.len() <= v.0 < c.types.len() ==> #[trigger] param_values(params).contains(v)
            || c.types[v.0 as int] is Unit
}

/// Block parameters in the order of their numbers, behind `skipped` values of type
/// `Unit`.
pub proof fn lemma_handed_on(
    b: FrameView,
    c: FrameView,
    params: Seq<(ValueId, ProcTypeView)>,
    skipped: nat,
)
    requires
        begins(c.types, b.types),
        c.types.len() == b.types.len() + skipped + params.len(),
        forall|k: int|
            b.types.len() <= k < b.types.len() + skipped ==> #[trigger] c.types[k] is Unit,
        forall|i: int|
            0 <= i < params.len() ==> (#[trigger] params[i]).0.0 == b.types.len() + skipped + i,
    ensures
        handed_on(b, c, params),
{
    reveal(handed_on);
    assert forall|v: ValueId|
        b.types.len() <= v.0 < c.types.len() implies #[trigger] param_values(params).contains(v)
        || c.types[v.0 as int] is Unit by {
        let i = v.0 - b.types.len() - skipped;
        if i >= 0 {
            assert(params[i].0 == v);
            assert(param_values(params)[i] == v);
        }
    }
}

pub proof fn lemma_leaves_none(a: State)
    ensures
        leaves(a, a, Multiset::empty(), Map::empty()),
{
    broadcast use group_reaches;

    reveal(leaves);
    lemma_runs_here(a);
    assert(tally(a.frame).add(Multiset::empty()) =~= tally(a.frame));
    assert(shaped(a.frame, a.frame, Map::empty()));
}

/// With nothing left to begin, every block was ended.
pub proof fn lemma_leaves_nothing(
    a: State,
    b: State,
    open: Multiset<u32>,
    counts: Map<u32, nat>,
)
    requires
        leaves(a, b, open, counts),
        b.stop is None ==> open =~= Multiset::empty(),
    ensures
        runs(a, b),
{
    reveal(leaves);
    reveal(in_shape);
    if b.stop is None {
        assert(tally(b.frame).add(open) =~= tally(b.frame));
    }
    lemma_closes(a, b);
}

pub proof fn lemma_leaves_on(
    a: State,
    b: State,
    c: State,
    open: Multiset<u32>,
    counts: Map<u32, nat>,
)
    requires
        leaves(a, b, open, counts),
        runs(b, c),
    ensures
        leaves(a, c, open, counts),
{
    broadcast use group_reaches;

    reveal(leaves);
    reveal(in_shape);
    reveal(reaches);
    reveal(grows);
    let (l, m, n) = (
        a.frame.next_block as nat,
        b.frame.next_block as nat,
        c.frame.next_block as nat,
    );
    if c.stop is None {
        lemma_numbers_split(l, m, n);
        assert(tally(c.frame).add(open) =~= tally(b.frame).add(open).add(numbers(m, n)));
        assert(tally(c.frame).add(open) =~= tally(a.frame).add(numbers(l, n)));
        let first = choose|all: Map<u32, nat>|
            counts.submap_of(all) && #[trigger] shaped(a.frame, b.frame, all);
        let more = choose|all: Map<u32, nat>| #[trigger] shaped(b.frame, c.frame, all);
        lemma_shaped_on(a.frame, b.frame, c.frame, first, more);
        let all = first.union_prefer_right(more);
        assert forall|k: u32| #[trigger] counts.dom().contains(k) implies all.dom().contains(k)
            && counts[k] == all[k] by {
            assert(first.dom().contains(k));
            assert(first.contains_key(k));
        }
        assert(counts.submap_of(all));
        lemma_filled_on(a.frame, b.frame, c.frame);
    }
}

/// A block's number handed out, for a block of `n` parameters.
pub proof fn lemma_leaves_fresh(
    a: State,
    b: State,
    open: Multiset<u32>,
    counts: Map<u32, nat>,
    n: nat,
)
    requires
        sound(b),
        leaves(a, b, open, counts),
    ensures
        sound(b.fresh_block().0),
        leaves(
            a,
            b.fresh_block().0,
            open.insert(b.fresh_block().1.0),
            counts.insert(b.fresh_block().1.0, n),
        ),
        reaches(b, b.fresh_block().0),
        is_block(b.fresh_block().0, b.fresh_block().1),
        b.fresh_block().0.stop is None ==> {
            &&& b.fresh_block().1.0 == b.frame.next_block
            &&& b.fresh_block().0.frame.next_block == b.frame.next_block + 1
        },
{
    broadcast use group_reaches;

    reveal(leaves);
    reveal(reaches);
    reveal(grows);
    lemma_fresh_block(b);
    let (c, id) = b.fresh_block();
    if c.stop is None {
        let l = a.frame.next_block as nat;
        let m = b.frame.next_block as nat;
        assert(numbers(l, m + 1) =~= numbers(l, m).insert(id.0));
        assert(tally(c.frame).add(open.insert(id.0)) =~= tally(b.frame).add(open).insert(id.0));
        assert(tally(a.frame).add(numbers(l, m)).insert(id.0) =~= tally(a.frame).add(
            numbers(l, m + 1),
        ));
        let all = choose|all: Map<u32, nat>|
            counts.submap_of(all) && #[trigger] shaped(a.frame, b.frame, all);
        let more = all.insert(id.0, n);
        assert(!all.contains_key(id.0));
        assert forall|i: int| a.frame.blocks.len() <= i < c.frame.blocks.len() implies meets(
            (#[trigger] c.frame.blocks[i]).terminator,
            more,
        ) && counted(a.frame, c.frame.blocks, i, more) by {
            assert(meets(b.frame.blocks[i].terminator, all));
            assert(counted(a.frame, b.frame.blocks, i, all));
        }
        assert(shaped(a.frame, c.frame, more));
        assert(counts.insert(id.0, n).submap_of(more));
        assert(filled(a.frame, c.frame)) by {
            reveal(State::fresh_block);
            reveal(filled);
            assert(assigned(c.frame) == assigned(b.frame));
            assert forall|v: ValueId|
                a.frame.types.len() <= v.0 < c.frame.types.len() implies #[trigger] is_set(
                c.frame,
                v,
            ) by {
                assert(is_set(b.frame, v));
            }
        }
    }
}

/// A block ended by `t`, and another one begun.
pub proof fn lemma_leaves_jump(
    a: State,
    b: State,
    c: State,
    t: TerminatorView,
    id: BlockId,
    params: Seq<(ValueId, ProcTypeView)>,
    open: Multiset<u32>,
    counts: Map<u32, nat>,
)
    requires
        leaves(a, b, open, counts),
        reaches(b, c),
        sound(c),
        c.frame.insts.len() == 0,
        c.stop is None ==> {
            &&& c.frame.blocks == b.frame.blocks.push(ended(b.frame, t))
            &&& block_ids(c.frame.blocks) =~= tally(b.frame)
            &&& c.frame.next_block == b.frame.next_block
            &&& open.count(id.0) > 0
            &&& meets(t, counts)
            &&& counts.contains_key(id.0)
            &&& counts[id.0] == params.len()
            &&& c.frame.types == b.frame.types || handed_on(b.frame, c.frame, params)
        },
        are_fresh(c, params),
        is_target(c, id),
    ensures
        sound(c.start_block(id, params)),
        leaves(a, c.start_block(id, params), open.remove(id.0), counts),
        reaches(b, c.start_block(id, params)),
        reaches(c, c.start_block(id, params)),
{
    broadcast use group_reaches;

    reveal(leaves);
    assert(is_block(c, id)) by {
        reveal(reaches);
        reveal(grows);
        if c.stop is None {
            let all = choose|all: Map<u32, nat>|
                counts.submap_of(all) && #[trigger] shaped(a.frame, b.frame, all);
            assert(all.contains_key(id.0));
        }
    }
    lemma_start_block(c, id, params);
    let d = c.start_block(id, params);
    assert(d.frame.params == params) by {
        reveal(State::start_block);
    }
    assert(c.stop is Some ==> d.stop is Some);
    if d.stop is None {
        assert(open.remove(id.0).insert(id.0) =~= open);
        assert(tally(d.frame).add(open.remove(id.0)) =~= tally(b.frame).add(open));
        assert(b.stop is None) by {
            reveal(reaches);
            reveal(grows);
        }
        let all = choose|all: Map<u32, nat>|
            counts.submap_of(all) && #[trigger] shaped(a.frame, b.frame, all);
        assert forall|i: int| a.frame.blocks.len() <= i < d.frame.blocks.len() implies meets(
            (#[trigger] d.frame.blocks[i]).terminator,
            all,
        ) && counted(a.frame, d.frame.blocks, i, all) by {
            if i < b.frame.blocks.len() {
                assert(meets(b.frame.blocks[i].terminator, all));
                assert(counted(a.frame, b.frame.blocks, i, all));
            }
        }
        assert(counts.contains_key(id.0));
        assert(counts.dom().contains(id.0) && all.dom().contains(id.0));
        assert(all.contains_key(id.0) && all[id.0] == params.len());
        assert(shaped(a.frame, d.frame, all));
        lemma_jump_filled(a.frame, b.frame, c, t, id, params);
    }
}

/// What was assigned when a block ended stays so, and the parameters of the next
/// one are assigned.
proof fn lemma_jump_filled(
    a: FrameView,
    b: FrameView,
    c: State,
    t: TerminatorView,
    id: BlockId,
    params: Seq<(ValueId, ProcTypeView)>,
)
    requires
        filled(a, b),
        c.frame.blocks == b.blocks.push(ended(b, t)),
        c.frame.insts.len() == 0,
        c.frame.types == b.types || handed_on(b, c.frame, params),
    ensures
        filled(a, c.start_block(id, params).frame),
{
    reveal(State::start_block);
    reveal(filled);
    reveal(handed_on);
    let d = c.start_block(id, params).frame;
    assert(d.blocks.drop_last() =~= b.blocks);
    assert(assigned_over(d.blocks) =~= assigned(b));
    assert(assigned(d) =~= assigned(b) + param_values(params));
    assert forall|v: ValueId| #[trigger] assigned(b).contains(v) implies assigned(d).contains(
        v,
    ) by {
        let i = choose|i: int| 0 <= i < assigned(b).len() && assigned(b)[i] == v;
        assert(assigned(d)[i] == v);
    }
    assert forall|v: ValueId| a.types.len() <= v.0 < d.types.len() implies #[trigger] is_set(
        d,
        v,
    ) by {
        if v.0 < b.types.len() {
            assert(is_set(b, v));
            assert(d.types[v.0 as int] == b.types[v.0 as int]);
        } else if param_values(params).contains(v) {
            let i = choose|i: int| 0 <= i < params.len() && param_values(params)[i] == v;
            assert(assigned(d)[assigned(b).len() + i] == v);
        }
    }
}

/// A branch to blocks left to begin leads to blocks that have not been begun.
pub proof fn lemma_leaves_lead_on(
    a: State,
    b: State,
    t: TerminatorView,
    open: Multiset<u32>,
    counts: Map<u32, nat>,
)
    requires
        sound(a),
        leaves(a, b, open, counts),
        b.stop is None ==> meets(t, counts),
        b.stop is None ==> (t matches TerminatorView::CondBr { then_block, else_block, .. }
            ==> open.count(then_block.0) > 0 && open.count(else_block.0) > 0),
    ensures
        leads_on(b, t),
{
    reveal(leaves);
    if b.stop is None {
        if let TerminatorView::CondBr { then_block, else_block, .. } = t {
            assert(a.stop is None) by {
                reveal(reaches);
                reveal(grows);
            }
            let all = choose|all: Map<u32, nat>|
                counts.submap_of(all) && #[trigger] shaped(a.frame, b.frame, all);
            assert forall|k: u32| counts.contains_key(k) && k != 0 && #[trigger] open.count(k)
                > 0 implies tally(b.frame).count(k) == 0 by {
                assert(all.contains_key(k));
                lemma_not_begun(a, k);
                lemma_number_count(a.frame.next_block as nat, b.frame.next_block as nat, k);
                assert(tally(b.frame).add(open).count(k) == tally(a.frame).add(
                    numbers(a.frame.next_block as nat, b.frame.next_block as nat),
                ).count(k));
            }
        }
    }
}

/// A number is among those handed out at most once.
proof fn lemma_number_count(lo: nat, hi: nat, k: u32)
    requires
        hi <= u32::MAX,
    ensures
        numbers(lo, hi).count(k) <= 1,
        k >= hi ==> numbers(lo, hi).count(k) == 0,
    decreases hi,
{
    if hi > lo {
        lemma_number_count(lo, (hi - 1) as nat, k);
    }
}

/// A block whose number has not been handed out has not been begun.
proof fn lemma_not_begun(a: State, k: u32)
    requires
        sound(a),
        a.stop is None,
        k >= a.frame.next_block,
        k != 0,
    ensures
        tally(a.frame).count(k) == 0,
{
    reveal(sound);
    lemma_id_uncounted(a.frame.blocks, k);
}

/// A number that no block has is not counted.
proof fn lemma_id_uncounted(s: Seq<BlockView>, k: u32)
    requires
        forall|i: int| 0 <= i < s.len() ==> (#[trigger] s[i]).id.0 != k,
    ensures
        block_ids(s).count(k) == 0,
    decreases s.len(),
{
    if s.len() > 0 {
        assert forall|i: int| 0 <= i < s.drop_last().len() implies (#[trigger] s.drop_last()[i]).id.0
            != k by {
            assert(s.drop_last()[i] == s[i]);
        }
        lemma_id_uncounted(s.drop_last(), k);
        assert(s.last() == s[s.len() - 1]);
    }
}

/// No block parameters.
pub proof fn lemma_no_params(st: State)
    ensures
        are_fresh(st, Seq::empty()),
{
    assert(param_values(Seq::empty()) =~= Seq::<ValueId>::empty());
}

/// Values one behind another are values.
pub proof fn lemma_both_values(st: State, vs: Seq<ValueId>, ws: Seq<ValueId>)
    requires
        are_values(st, vs),
        are_values(st, ws),
    ensures
        are_values(st, vs + ws),
{
    if st.stop is None {
        assert forall|i: int| 0 <= i < (vs + ws).len() implies (#[trigger] (vs + ws)[i]).0
            < st.frame.types.len() by {
            if i < vs.len() {
                assert(vs[i].0 < st.frame.types.len());
            } else {
                assert(ws[i - vs.len()].0 < st.frame.types.len());
            }
        }
    }
}

/// Values that are there stay there.
pub proof fn lemma_values_later(a: State, b: State, vs: Seq<ValueId>)
    requires
        reaches(a, b),
        are_values(a, vs),
    ensures
        are_values(b, vs),
{
    broadcast use group_reaches;

}

/// Variables that are there stay there.
pub proof fn lemma_vars_later(a: State, b: State, vars: Vars)
    requires
        reaches(a, b),
        are_vars(a, vars),
    ensures
        are_vars(b, vars),
{
    broadcast use group_reaches;

}

pub proof fn lemma_loop_opened(
    a: State,
    st: State,
    lo: ValueId,
    hi: ValueId,
    carried: Vars,
    header: BlockId,
    body: BlockId,
    exit: BlockId,
    open: Multiset<u32>,
    counts: Map<u32, nat>,
)
    requires
        sound(a),
        sound(st),
        leaves(a, st, open, counts),
        st.stop is None ==> {
            &&& counts.contains_key(header.0) && counts[header.0] == 1 + carried.len()
            &&& counts.contains_key(body.0) && counts[body.0] == 0
            &&& counts.contains_key(exit.0) && counts[exit.0] == 0
        },
        is_value(st, lo),
        is_value(st, hi),
        are_vars(st, carried),
        are_plain(carried),
        is_block(st, header),
        is_block(st, body),
        is_block(st, exit),
        st.stop is None ==> open.count(header.0) > 0 && open.remove(header.0).count(body.0) > 0
            && open.remove(header.0).count(exit.0) > 0,
    ensures
        ({
            let (out, counter, params) = loop_opened(st, lo, hi, carried, header, body, exit);
            &&& sound(out)
            &&& leaves(a, out, open.remove(header.0).remove(body.0), counts)
            &&& params.len() == carried.len()
            &&& reaches(st, out)
            &&& is_value(out, counter)
            &&& are_vars(out, params)
            &&& are_plain(params)
            &&& is_target(out, exit)
        }),
{
    broadcast use group_reaches;

    reveal(loop_opened);
    let args = seq![lo] + prior_values(carried);
    lemma_prior_values(st, carried);
    lemma_both_values(st, seq![lo], prior_values(carried));
    let into = TerminatorView::Br { target: header, args };
    lemma_finish_block(st, into);
    let st1 = st.finish_block(into);
    let (st2, counter) = st1.define(ProcTypeView::Integer);
    lemma_define(st1, ProcTypeView::Integer);
    let (st3, params) = fresh_first(st2, carried, carried.len());
    lemma_fresh_first(st2, carried, carried.len());
    let all = seq![(counter, ProcTypeView::Integer)] + var_params(params);
    assert(are_fresh(st3, all)) by {
        if st3.stop is None {
            let vs = param_values(all);
            assert(unassigned(st3, counter));
            assert forall|i: int| 0 <= i < all.len() implies (#[trigger] all[i]).0.0
                == st1.frame.types.len() + i && unassigned(st3, all[i].0) by {
                if i > 0 {
                    assert(all[i] == params[i - 1].1);
                }
            }
            assert forall|i: int| 0 <= i < all.len() implies (#[trigger] all[i]).0.0
                < st3.frame.types.len() by {
                if i > 0 {
                    assert(params[i - 1].1.0.0 < st3.frame.types.len());
                }
            }
            assert forall|i: int, j: int| 0 <= i < j < vs.len() implies vs[i] != vs[j] by {
                assert(all[i].0.0 != all[j].0.0);
            }
        }
    }
    lemma_target_later(st1, st3, header);
    if st3.stop is None {
        lemma_fresh_count(st2, carried, carried.len());
        assert(begins(st3.frame.types, st.frame.types)) by {
            reveal(reaches);
        }
        assert forall|i: int| 0 <= i < all.len() implies (#[trigger] all[i]).0.0
            == st.frame.types.len() + i by {
            if i > 0 {
                assert(all[i] == params[i - 1].1);
            }
        }
        lemma_handed_on(st.frame, st3.frame, all, 0);
    }
    lemma_leaves_jump(a, st, st3, into, header, all, open, counts);
    let st4 = st3.start_block(header, all);
    lemma_vars_later(st3, st4, params);
    lemma_rebound(st4, params);
    let st5 = rebound(st4, params);
    let (st6, test) = st5.define(ProcTypeView::Boolean);
    lemma_define(st5, ProcTypeView::Boolean);
    let inst = InstView::ScalarOp {
        dst: test,
        op: ScalarOp::LtEq,
        operand_type: ProcTypeView::Integer,
        lhs: counter,
        rhs: hi,
    };
    lemma_define_emit(st5, ProcTypeView::Boolean, inst);
    let st7 = st6.emit(inst);
    let rest = open.remove(header.0);
    lemma_leaves_on(a, st4, st5, rest, counts);
    lemma_leaves_on(a, st5, st7, rest, counts);
    let branch = TerminatorView::CondBr { cond: test, then_block: body, else_block: exit };
    lemma_leaves_lead_on(a, st7, branch, rest, counts);
    lemma_finish_block(st7, branch);
    let st8 = st7.finish_block(branch);
    lemma_no_params(st8);
    lemma_leaves_jump(a, st7, st8, branch, body, Seq::empty(), rest, counts);
    lemma_vars_later(st4, st8.start_block(body, Seq::empty()), params);
    lemma_target_later(st8, st8.start_block(body, Seq::empty()), exit);
}

pub proof fn lemma_loop_closed(
    a: State,
    st: State,
    counter: ValueId,
    carried: Vars,
    params: Vars,
    header: BlockId,
    exit: BlockId,
    open: Multiset<u32>,
    counts: Map<u32, nat>,
)
    requires
        sound(st),
        leaves(a, st, open, counts),
        st.stop is None ==> {
            &&& counts.contains_key(header.0) && counts[header.0] == 1 + carried.len()
            &&& counts.contains_key(exit.0) && counts[exit.0] == 0
        },
        is_value(st, counter),
        are_vars(st, carried),
        are_vars(st, params),
        is_block(st, header),
        is_target(st, exit),
        st.stop is None ==> open =~= Multiset::empty().insert(exit.0),
    ensures
        sound(loop_closed(st, counter, carried, params, header, exit)),
        runs(a, loop_closed(st, counter, carried, params, header, exit)),
{
    broadcast use group_reaches;

    reveal(loop_closed);
    let int_type = ProcTypeView::Integer;
    let (st1, one) = st.constant(ConstView::Integer(1), int_type);
    lemma_constant(st, ConstView::Integer(1), int_type);
    let (st2, next) = st1.define(int_type);
    lemma_define(st1, int_type);
    let inst = InstView::ScalarOp {
        dst: next,
        op: ScalarOp::Add,
        operand_type: int_type,
        lhs: counter,
        rhs: one,
    };
    lemma_define_emit(st1, int_type, inst);
    let st3 = st2.emit(inst);
    lemma_leaves_on(a, st, st1, open, counts);
    lemma_leaves_on(a, st1, st3, open, counts);
    let now = current_values(st3, carried);
    lemma_vars_later(st, st3, carried);
    lemma_vars_later(st, st3, params);
    lemma_current_values(st3, carried);
    lemma_both_values(st3, seq![next], now);
    let back = TerminatorView::Br { target: header, args: seq![next] + now };
    lemma_finish_block(st3, back);
    let st4 = st3.finish_block(back);
    lemma_no_params(st4);
    lemma_target_later(st, st4, exit);
    lemma_leaves_jump(a, st3, st4, back, exit, Seq::empty(), open, counts);
    let st5 = st4.start_block(exit, Seq::empty());
    lemma_vars_later(st3, st5, params);
    lemma_rebound(st5, params);
    lemma_leaves_on(a, st5, rebound(st5, params), open.remove(exit.0), counts);
    lemma_leaves_nothing(a, rebound(st5, params), open.remove(exit.0), counts);
}

/// How many parameters the block where two branches meet has.
pub open spec fn merge_count(ty: ProcTypeView, carried: Vars, introduced: Vars) -> nat {
    (if ty is Unit {
        0nat
    } else {
        1nat
    }) + carried.len() + introduced.len()
}

/// The block where two branches meet; the second one ended by `out`, before
/// which the state was `before`.
pub proof fn lemma_merged(
    a: State,
    before: State,
    st: State,
    out: TerminatorView,
    merge_id: BlockId,
    ty: ProcTypeView,
    carried: Vars,
    introduced: Vars,
    open: Multiset<u32>,
    counts: Map<u32, nat>,
)
    requires
        sound(st),
        leaves(a, before, open, counts),
        reaches(before, st),
        st.frame.insts.len() == 0,
        is_target(st, merge_id),
        is_type(st, ty),
        are_plain(carried),
        are_plain(introduced),
        st.stop is None ==> {
            &&& st.frame.blocks == before.frame.blocks.push(ended(before.frame, out))
            &&& block_ids(st.frame.blocks) =~= tally(before.frame)
            &&& st.frame.next_block == before.frame.next_block
            &&& st.frame.types == before.frame.types
            &&& open =~= Multiset::empty().insert(merge_id.0)
            &&& meets(out, counts)
            &&& counts.contains_key(merge_id.0)
            &&& counts[merge_id.0] == merge_count(ty, carried, introduced)
        },
    ensures
        sound(merged(st, merge_id, ty, carried, introduced).0),
        runs(a, merged(st, merge_id, ty, carried, introduced).0),
        is_value(
            merged(st, merge_id, ty, carried, introduced).0,
            merged(st, merge_id, ty, carried, introduced).1,
        ),
{
    broadcast use group_reaches;

    reveal(merged);
    let (st1, result) = st.define(ty);
    lemma_define(st, ty);
    let st2 = if ty is Text {
        st1.own(result)
    } else {
        st1
    };
    lemma_own(st1, result);
    lemma_owned_only(st1, result);
    let (st3, carried_params) = fresh_first(st2, carried, carried.len());
    lemma_fresh_first(st2, carried, carried.len());
    let (st4, new_params) = fresh_first(st3, introduced, introduced.len());
    lemma_fresh_first(st3, introduced, introduced.len());
    let own_param = if ty is Unit {
        Seq::empty()
    } else {
        seq![(result, ty)]
    };
    let all = own_param + var_params(carried_params) + var_params(new_params);
    assert(are_fresh(st4, all)) by {
        if st4.stop is None {
            let (k, m) = (own_param.len() as int, carried_params.len() as int);
            let vs = param_values(all);
            assert(unassigned(st4, result));
            assert forall|i: int| 0 <= i < all.len() implies unassigned(
                st4,
                (#[trigger] all[i]).0,
            ) && all[i].0.0 < st4.frame.types.len() by {
                if i < k {
                    assert(all[i] == own_param[i]);
                } else if i < k + m {
                    assert(all[i] == carried_params[i - k].1);
                } else {
                    assert(all[i] == new_params[i - k - m].1);
                }
            }
            assert forall|i: int, j: int| 0 <= i < j < vs.len() implies vs[i] != vs[j] by {
                assert(vs[i] == all[i].0 && vs[j] == all[j].0);
                if j < k {
                } else if j < k + m {
                    assert(all[j] == carried_params[j - k].1);
                    if i < k {
                        assert(all[i] == own_param[i]);
                    } else {
                        assert(all[i] == carried_params[i - k].1);
                    }
                } else {
                    assert(all[j] == new_params[j - k - m].1);
                    if i < k {
                        assert(all[i] == own_param[i]);
                    } else if i < k + m {
                        assert(all[i] == carried_params[i - k].1);
                        assert(carried_params[i - k].1.0.0 < st3.frame.types.len());
                    } else {
                        assert(all[i] == new_params[i - k - m].1);
                    }
                }
            }
        }
    }
    lemma_target_later(st, st4, merge_id);
    if st4.stop is None {
        lemma_fresh_count(st2, carried, carried.len());
        lemma_fresh_count(st3, introduced, introduced.len());
        assert(begins(st4.frame.types, st1.frame.types) && st2.frame.types == st1.frame.types)
            by {
            reveal(reaches);
            reveal(State::own);
        }
        let (k, m) = (own_param.len() as int, carried_params.len() as int);
        let skipped = (1 - k) as nat;
        assert forall|i: int| 0 <= i < all.len() implies (#[trigger] all[i]).0.0
            == st.frame.types.len() + skipped + i by {
            if i < k {
                assert(all[i] == own_param[i]);
            } else if i < k + m {
                assert(all[i] == carried_params[i - k].1);
            } else {
                assert(all[i] == new_params[i - k - m].1);
            }
        }
        assert(st1.frame.types == st.frame.types.push(ty));
        assert(st1.frame.types[st.frame.types.len() as int] == ty);
        assert(st4.frame.types[st.frame.types.len() as int] == ty);
        lemma_begins(st4.frame.types, st1.frame.types, st.frame.types);
        lemma_handed_on(before.frame, st4.frame, all, skipped);
    }
    lemma_leaves_jump(a, before, st4, out, merge_id, all, open, counts);
    let st5 = st4.start_block(merge_id, all);
    let rest = open.remove(merge_id.0);
    lemma_vars_later(st3, st5, carried_params);
    lemma_vars_later(st4, st5, new_params);
    lemma_rebound(st5, carried_params);
    let st6 = rebound(st5, carried_params);
    lemma_rebound(st6, new_params);
    lemma_leaves_on(a, st5, st6, rest, counts);
    lemma_leaves_on(a, st6, rebound(st6, new_params), rest, counts);
    lemma_leaves_nothing(a, rebound(st6, new_params), rest, counts);
}

/// Owning a text changes nothing of the code.
proof fn lemma_owned_only(st: State, v: ValueId)
    ensures
        only_defined(st, st.own(v)),
        st.own(v).stop == st.stop,
        st.own(v).frame.types == st.frame.types,
{
    reveal(State::own);
    reveal(unassigned);
}

} // verus!
