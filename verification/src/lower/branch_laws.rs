//! Loops and conditionals go where their conditions send them.

use crate::ast::{Block, Expr, ExprKind, Stmt};
use crate::ir::{BlockId, ProcTypeView, TerminatorView};
use crate::lower::assigned::{assigned_in_block, assigned_in_expr};
use crate::lower::loop_laws::{
    lemma_carried_frame, lemma_fresh_frame, lemma_rebound_frame, loop_ids,
};
use crate::lower::lowering::{
    arm_lowered, block_lowered, branches_lowered, do_while_lowered, if_lowered, lowered, merged,
    result_args, stmts_lowered, while_lowered,
};
use crate::lower::meaning::{is_scalar, reads, reckons, value_of, Machine, Site};
use crate::lower::running::{follows, goes_to, visits, walks, Visit};
use crate::lower::scalar_laws::{
    bound_values, is_readable, law_scalars_are_computed, lemma_same_names,
};
use crate::lower::state::{alias_layers, last_layer, local_layers, State};
use crate::lower::steps::{
    carried_first, current_values, fresh_first, introduced_first, introduced_names, prior_values,
    rebound, var_params, with_values, Vars,
};
use crate::lower::valid::forms::{lemma_do_while_parts, lemma_while_parts};
use crate::lower::valid::{begins, grows, runs, sound};
use crate::rel_analysis::add_each;
use crate::text::Name;
use vstd::prelude::*;

verus! {

/// The state in which a loop's condition is lowered when it comes first: each variable
/// that the body changes is a parameter of the block that tests the condition.
pub open spec fn tested_first(st: State, s: Stmt) -> State {
    match s {
        Stmt::While { span, body, .. } => {
            let names = add_each(Seq::empty(), assigned_in_block(body));
            let (st, carried) = carried_first(st, names, names.len(), span);
            let (st, header) = st.fresh_block();
            let (st, _) = st.fresh_block();
            let (st, _) = st.fresh_block();
            let st = st.finish_block(
                TerminatorView::Br { target: header, args: prior_values(carried) },
            );
            let (st, params) = fresh_first(st, carried, carried.len());
            rebound(st.start_block(header, var_params(params)), params)
        },
        _ => st,
    }
}

/// The state in which a loop's condition is lowered when it comes last: behind the
/// body.
pub open spec fn tested_last(st: State, s: Stmt) -> State {
    match s {
        Stmt::DoWhile { span, body, .. } => {
            let names = add_each(Seq::empty(), assigned_in_block(body));
            let (st, carried) = carried_first(st, names, names.len(), span);
            let (st, first) = st.fresh_block();
            let (st, _) = st.fresh_block();
            let (st, _) = st.fresh_block();
            let st = st.finish_block(
                TerminatorView::Br { target: first, args: prior_values(carried) },
            );
            let (st, params) = fresh_first(st, carried, carried.len());
            let st = rebound(st.start_block(first, var_params(params)), params);
            block_lowered(st.push_scope(), body).0.release_scope().pop_scope()
        },
        _ => st,
    }
}

/// A loop that tests its condition before each round makes a round exactly when the
/// condition is true, and leaves exactly when it is not: control goes from the block
/// before the loop to the test, from the test to the body or behind the loop, and from
/// the end of the body back to the test.
pub proof fn law_while_loops_test_before_each_round(
    site: Site,
    st: State,
    s: Stmt,
    condition: Expr,
    v: Visit,
)
    requires
        sound(st),
        s matches Stmt::While { condition: x, .. } && x == condition,
        is_scalar(condition),
        is_readable(tested_first(st, s), condition),
        while_lowered(st, s).stop is None,
        visits(site, while_lowered(st, s).frame.blocks, v),
        v.at == st.frame.blocks.len() + 1,
    ensures
        ({
            let out = while_lowered(st, s);
            let blocks = out.frame.blocks;
            let k = st.frame.blocks.len() as int;
            let ids = loop_ids(st);
            &&& k + 2 < blocks.len()
            &&& blocks[k].id == st.frame.current
            &&& goes_to(blocks[k].terminator, v.after) == Some(ids.header)
            &&& blocks[k + 1].id == ids.header
            &&& goes_to(blocks[k + 1].terminator, v.after) == if value_of(
                site.codes,
                condition,
                bound_values(tested_first(st, s), v.after),
            ) != 0 {
                Some(ids.body)
            } else {
                Some(out.frame.current)
            }
            &&& goes_to(blocks.last().terminator, v.after) == Some(ids.header)
            &&& out.frame.current == ids.exit
        }),
{
    if let Stmt::While { span, condition: x, body } = s {
        let names = add_each(Seq::empty(), assigned_in_block(body));
        lemma_carried_frame(st, names, names.len(), span);
        let (st1, carried) = carried_first(st, names, names.len(), span);
        let (st2, header) = st1.fresh_block();
        let (st3, body_id) = st2.fresh_block();
        let (st4, exit) = st3.fresh_block();
        let into = TerminatorView::Br { target: header, args: prior_values(carried) };
        let st5 = st4.finish_block(into);
        let (st6, params) = fresh_first(st5, carried, carried.len());
        lemma_fresh_frame(st5, carried, carried.len());
        let st7 = st6.start_block(header, var_params(params));
        lemma_rebound_frame(st7, params);
        let st8 = rebound(st7, params);
        assert(st8 == tested_first(st, s));
        law_scalars_are_computed(site, v.after, st8, x);
        let (st9, cond) = lowered(st8, x);
        let branch = TerminatorView::CondBr { cond, then_block: body_id, else_block: exit };
        let st10 = st9.finish_block(branch);
        let st11 = st10.start_block(body_id, Seq::empty());
        let st13 = block_lowered(st11.push_scope(), body).0.release_scope().pop_scope();
        let back = TerminatorView::Br { target: header, args: current_values(st13, carried) };
        let st14 = st13.finish_block(back);
        let st15 = st14.start_block(exit, Seq::empty());
        lemma_rebound_frame(st15, params);
        let out = rebound(st15, params);
        assert(out == while_lowered(st, s));
        lemma_while_parts(st, s);
        reveal(State::finish_block);
        reveal(State::start_block);
        reveal(State::fresh_block);
        reveal(State::halted);
        assert(st11.stop is None && begins(st13.frame.blocks, st11.frame.blocks)) by {
            reveal(runs);
            reveal(grows);
        }
        let k = st.frame.blocks.len() as int;
        assert(st13.frame.blocks[k] == st11.frame.blocks[k]);
        assert(st13.frame.blocks[k + 1] == st11.frame.blocks[k + 1]);
    }
}

/// A loop that tests its condition after each round makes another round exactly when
/// the condition is true, and leaves exactly when it is not.
pub proof fn law_do_while_loops_test_after_each_round(
    site: Site,
    st: State,
    s: Stmt,
    condition: Expr,
    v: Visit,
)
    requires
        sound(st),
        s matches Stmt::DoWhile { condition: x, .. } && x == condition,
        is_scalar(condition),
        is_readable(tested_last(st, s), condition),
        do_while_lowered(st, s).stop is None,
        visits(site, do_while_lowered(st, s).frame.blocks, v),
        v.at == do_while_lowered(st, s).frame.blocks.len() - 2,
    ensures
        ({
            let out = do_while_lowered(st, s);
            let blocks = out.frame.blocks;
            let k = st.frame.blocks.len() as int;
            let ids = loop_ids(st);
            &&& k + 2 < blocks.len()
            &&& blocks[k].id == st.frame.current
            &&& goes_to(blocks[k].terminator, v.after) == Some(ids.header)
            &&& goes_to(blocks[v.at].terminator, v.after) == if value_of(
                site.codes,
                condition,
                bound_values(tested_last(st, s), v.after),
            ) != 0 {
                Some(blocks.last().id)
            } else {
                Some(out.frame.current)
            }
            &&& blocks.last().id == ids.body
            &&& goes_to(blocks.last().terminator, v.after) == Some(ids.header)
            &&& out.frame.current == ids.exit
        }),
{
    if let Stmt::DoWhile { span, body, condition: x } = s {
        let names = add_each(Seq::empty(), assigned_in_block(body));
        lemma_carried_frame(st, names, names.len(), span);
        let (st1, carried) = carried_first(st, names, names.len(), span);
        let (st2, body_id) = st1.fresh_block();
        let (st3, latch) = st2.fresh_block();
        let (st4, exit) = st3.fresh_block();
        let into = TerminatorView::Br { target: body_id, args: prior_values(carried) };
        let st5 = st4.finish_block(into);
        let (st6, params) = fresh_first(st5, carried, carried.len());
        lemma_fresh_frame(st5, carried, carried.len());
        let st7 = st6.start_block(body_id, var_params(params));
        lemma_rebound_frame(st7, params);
        let st8 = rebound(st7, params);
        let st10 = block_lowered(st8.push_scope(), body).0.release_scope().pop_scope();
        assert(st10 == tested_last(st, s));
        let now = current_values(st10, carried);
        law_scalars_are_computed(site, v.after, st10, x);
        let (st11, cond) = lowered(st10, x);
        let branch = TerminatorView::CondBr { cond, then_block: latch, else_block: exit };
        let st12 = st11.finish_block(branch);
        let st13 = st12.start_block(latch, Seq::empty()).finish_block(
            TerminatorView::Br { target: body_id, args: now },
        );
        let st15 = st13.start_block(exit, Seq::empty());
        lemma_rebound_frame(st15, with_values(carried, now));
        let out = rebound(st15, with_values(carried, now));
        assert(out == do_while_lowered(st, s));
        lemma_do_while_parts(st, s);
        reveal(State::finish_block);
        reveal(State::start_block);
        reveal(State::fresh_block);
        reveal(State::halted);
        assert(st8.stop is None && begins(st10.frame.blocks, st8.frame.blocks)) by {
            reveal(runs);
            reveal(grows);
        }
        let k = st.frame.blocks.len() as int;
        assert(st10.frame.blocks[k] == st8.frame.blocks[k]);
    }
}

/// A new layer binds no name.
proof fn lemma_pushed_names(st: State)
    ensures
        forall|n: Name| #[trigger] st.push_scope().local(n) == st.local(n),
        forall|n: Name| #[trigger] st.push_scope().alias(n) == st.alias(n),
{
    reveal(State::push_scope);
    reveal(State::local);
    reveal(State::alias);
    let out = st.push_scope();
    let (a, b) = (local_layers(st.frame.scopes), local_layers(out.frame.scopes));
    assert(b.drop_last() =~= a);
    assert(b.last() =~= Seq::<Name>::empty());
    let (c, d) = (alias_layers(st.frame.scopes), alias_layers(out.frame.scopes));
    assert(d.drop_last() =~= c);
    assert(d.last() =~= Seq::<Name>::empty());
    assert forall|n: Name| #[trigger] st.push_scope().local(n) == st.local(n) by {
        assert(last_layer(b, n) == last_layer(a, n));
        lemma_layer_in_range(a, n);
    }
    assert forall|n: Name| #[trigger] st.push_scope().alias(n) == st.alias(n) by {
        assert(last_layer(d, n) == last_layer(c, n));
        lemma_layer_in_range(c, n);
    }
}

proof fn lemma_layer_in_range(layers: Seq<Seq<Name>>, n: Name)
    ensures
        last_layer(layers, n) <= layers.len(),
    decreases layers.len(),
{
    if layers.len() > 0 && !layers.last().contains(n) {
        lemma_layer_in_range(layers.drop_last(), n);
    }
}

/// A branch that is a scalar expression alone.
proof fn lemma_scalar_arm(site: Site, m: Machine, st: State, b: Block, x: Expr)
    requires
        is_just(b, x),
        is_scalar(x),
        is_readable(st, x),
    ensures
        ({
            let (out, v) = arm_lowered(st, b);
            &&& out.frame.blocks == st.frame.blocks
            &&& out.frame.current == st.frame.current
            &&& out.frame.params == st.frame.params
            &&& out.frame.next_block == st.frame.next_block
            &&& out.frame.scopes == st.frame.scopes
            &&& out.stop is None ==> st.stop is None
            &&& begins(out.frame.insts, st.frame.insts)
            &&& reckons(site, m, out.frame.insts) ==> (m.cell)(v) == value_of(
                site.codes,
                x,
                bound_values(st, m),
            )
        }),
{
    let pushed = st.push_scope();
    lemma_pushed_names(st);
    assert forall|n: Name| #[trigger] reads(x, n) implies pushed.local(n) is Some && pushed.alias(
        n,
    ) is None by {
        assert(pushed.local(n) == st.local(n) && pushed.alias(n) == st.alias(n));
    }
    assert(stmts_lowered(pushed, b.statements@, b.statements@.len()) == pushed);
    law_scalars_are_computed(site, m, pushed, x);
    assert(bound_values(pushed, m) =~= bound_values(st, m));
    let (inner, v) = lowered(pushed, x);
    assert(block_lowered(pushed, b) == (inner, v));
    reveal(State::push_scope);
    reveal(State::pop_scope);
    reveal(State::release_scope);
    reveal(State::retain_escaping);
    reveal(State::binds_in_top);
    reveal(State::top_locals);
    assert(inner.top_locals().len() == 0);
    assert(inner.frame.scopes.drop_last() =~= st.frame.scopes);
}

/// A scalar expression assigns to no name.
proof fn lemma_scalar_assigns(e: Expr)
    requires
        is_scalar(e),
    ensures
        assigned_in_expr(e).len() == 0,
    decreases e,
{
    if let ExprKind::Binary { op, lhs, rhs } = e.kind {
        lemma_scalar_assigns(*lhs);
        lemma_scalar_assigns(*rhs);
    }
}

/// Whether a block is one expression alone.
pub open spec fn is_just(b: Block, x: Expr) -> bool {
    &&& b.statements@.len() == 0
    &&& b.tail matches Some(t) && *t == x
}

/// A conditional of two expressions has the value of the first where its condition is
/// true, and of the second where it is not: control passes through one block, which
/// hands that value to the block where both ways meet.
pub proof fn law_conditionals_choose_by_their_condition(
    site: Site,
    st: State,
    e: Expr,
    x: Expr,
    y: Expr,
    p: Seq<Visit>,
)
    requires
        e.kind matches ExprKind::If { then_body, else_body: Some(other), .. } && is_just(
            then_body,
            x,
        ) && is_just(other, y),
        e.kind matches ExprKind::If { condition, .. } && is_scalar(*condition) && is_readable(
            st,
            *condition,
        ),
        is_scalar(x) && is_scalar(y),
        is_readable(st, x) && is_readable(st, y),
        st.frame.current.0 < st.frame.next_block,
        if_lowered(st, e).0.stop is None,
        walks(site, if_lowered(st, e).0.frame.blocks, st.frame.blocks.len() as int, p),
        p.len() == 2,
    ensures
        ({
            let (out, result) = if_lowered(st, e);
            let last = out.frame.blocks[p[1].at];
            &&& goes_to(last.terminator, p[1].after) == Some(out.frame.current)
            &&& last.terminator matches TerminatorView::Br { args, .. } && (args.len() > 0 ==> {
                &&& out.frame.params.len() > 0 && out.frame.params[0].0 == result
                &&& (p[1].after.cell)(args[0]) == if value_of(
                    site.codes,
                    *(e.kind->If_condition),
                    bound_values(st, p[0].after),
                ) != 0 {
                    value_of(site.codes, x, bound_values(st, p[1].after))
                } else {
                    value_of(site.codes, y, bound_values(st, p[1].after))
                }
            })
        }),
{
    if let ExprKind::If { condition, then_body, else_body: Some(other) } = e.kind {
        let (out, result) = if_lowered(st, e);
        let none = Seq::<Name>::empty();
        lemma_scalar_assigns(x);
        lemma_scalar_assigns(y);
        assert(assigned_in_block(then_body) =~= none && assigned_in_block(other) =~= none);
        assert(none + none =~= none);
        reveal_with_fuel(add_each, 2);
        let names = add_each(none, none + none);
        assert(names =~= none);
        let carried: Vars = Seq::empty();
        assert(carried_first(st, names, names.len(), e.span) == (st, carried));
        law_scalars_are_computed(site, p[0].after, st, *condition);
        let (a, cond) = lowered(st, *condition);
        assert(out == branches_lowered(a, e, carried, cond).0);
        assert(result == branches_lowered(a, e, carried, cond).1);
        let new_names = introduced_names(a, none, none);
        assert(new_names =~= none) by {
            reveal(Seq::filter);
        }
        let (b1, then_id) = a.fresh_block();
        let (b2, else_id) = b1.fresh_block();
        let (b3, merge_id) = b2.fresh_block();
        let branch = TerminatorView::CondBr { cond, then_block: then_id, else_block: else_id };
        let b4 = b3.finish_block(branch);
        let b5 = b4.start_block(then_id, Seq::empty());
        reveal(State::fresh_block);
        reveal(State::finish_block);
        reveal(State::start_block);
        reveal(State::halted);
        lemma_same_names(st, b5);
        assert(bound_values(b5, p[1].after) =~= bound_values(st, p[1].after));
        lemma_scalar_arm(site, p[1].after, b5, then_body, x);
        let (b6, then_val) = arm_lowered(b5, then_body);
        let ty = b6.type_of(then_val);
        assert(introduced_first(b6, new_names, new_names.len(), e.span) == (b6, carried));
        let first_out = TerminatorView::Br {
            target: merge_id,
            args: result_args(ty, then_val) + current_values(b6, carried) + prior_values(carried),
        };
        let b7 = b6.finish_block(first_out);
        lemma_rebound_frame(b7, carried);
        assert(rebound(b7, carried) == b7) by {
            reveal(rebound);
        }
        let b8 = b7.start_block(else_id, Seq::empty());
        lemma_same_names(st, b8);
        assert(bound_values(b8, p[1].after) =~= bound_values(st, p[1].after));
        lemma_scalar_arm(site, p[1].after, b8, other, y);
        let (b9, else_val) = arm_lowered(b8, other);
        let second_out = TerminatorView::Br {
            target: merge_id,
            args: result_args(ty, else_val) + current_values(b9, carried) + current_values(
                b9,
                carried,
            ),
        };
        let b10 = b9.finish_block(second_out);
        assert((out, result) == merged(b10, merge_id, ty, carried, carried));
        lemma_merged_frame(b10, merge_id, ty);
        let k = st.frame.blocks.len() as int;
        let blocks = out.frame.blocks;
        assert(blocks.len() == k + 3);
        assert(visits(site, blocks, p[0]) && visits(site, blocks, p[1]));
        assert(follows(blocks, p[0], p[1]));
        assert(blocks[k].insts == a.frame.insts);
        assert(blocks[k + 1].insts == b6.frame.insts && blocks[k + 1].id == then_id);
        assert(blocks[k + 2].insts == b9.frame.insts && blocks[k + 2].id == else_id);
        assert((result_args(ty, then_val) + current_values(b6, carried) + prior_values(carried))
            =~= result_args(ty, then_val));
        assert((result_args(ty, else_val) + current_values(b9, carried) + current_values(
            b9,
            carried,
        )) =~= result_args(ty, else_val));
    }
}

/// The block where two branches meet takes the result.
proof fn lemma_merged_frame(st: State, merge_id: BlockId, ty: ProcTypeView)
    ensures
        ({
            let (out, result) = merged(st, merge_id, ty, Seq::empty(), Seq::empty());
            &&& out.frame.blocks == st.frame.blocks
            &&& out.frame.current == merge_id
            &&& out.stop is None ==> st.stop is None
            &&& !(ty is Unit) ==> out.frame.params.len() == 1 && out.frame.params[0].0 == result
        }),
{
    let none: Vars = Seq::empty();
    reveal(merged);
    reveal(State::define);
    reveal(State::halted);
    reveal(State::own);
    reveal(State::start_block);
    reveal(rebound);
    assert(var_params(none) =~= Seq::empty());
}

} // verus!
