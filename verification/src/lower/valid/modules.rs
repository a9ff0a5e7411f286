//! The modules that lowering makes are well formed.

use crate::ast::{Item, OperDecl, RelvarInfo, TypeRef};
use crate::cut::QueryView;
use crate::diag::{any_error, diagnostics_view};
use crate::heading_laws::law_name_order;
use crate::ir::{
    BlockView, FunctionView, HeadingId, InstView, ModuleView, PlanView, ProcTypeView, RelvarView,
    TerminatorView, ValueId,
};
use crate::lower::kinds::written_type;
use crate::lower::lowering::block_lowered;
use crate::lower::program::{
    call_index, calling_block, current_public, declared_params, epilogue, function_index,
    insert_relvar, is_call, items_lowered, oper_lowered, opers_known, outcome, params_bound,
    plan_db_name, plan_pushes, plan_registrations, private_relvars, privates_known,
    program_lowered, prologue, public_inits, public_releases, publics_known, signature, spliced,
    used_slots, with_prologue, CheckedProgram, LoweredView, Plan, ResolvedRelvar,
};
use crate::lower::state::{
    empty_frame, initial_state, keys_of, lemma_name_index, name_index, put_in, FrameView, State,
    StopView, WritePolicy,
};
use crate::lower::valid::explained::{
    entry_texts, in_asking_order, lemma_as_told, lemma_none_queried, lemma_order_of_none,
    lemma_order_stays, lemma_queried_concat, lemma_queried_replaced, lemma_queried_update,
    lemma_tells_on, placed, queried, queried_by, queried_in, queried_over, tells, texts_by_key,
};
use crate::lower::valid::forms::lemma_block;
use crate::lower::valid::patterns::{
    lemma_call_runtime, lemma_release_scope, lemma_retain_escaping, lemma_symbols,
    lemma_type_anywhere,
};
use crate::lower::valid::primitives::{
    begun, closed_body, ends, group_reaches, lemma_begin_body, lemma_bind, lemma_blocks_stay,
    lemma_body_closes, lemma_body_ok, lemma_functions_stay, lemma_grows_on, lemma_halted,
    lemma_intern, lemma_release_deferred, lemma_runs_here, lemma_runs_on, lemma_symbol_stays,
    lemma_take_param, numbered, reaches,
};
use crate::lower::valid::{
    all_given, all_handed, all_in, are_given, assigned, assigned_by, assigned_in, assigned_over,
    begins, block_ids, block_in, blocks_in, body_ok, bounds, callable, declared, framed,
    function_ok, functions_ok, grows, hands, has_symbol, in_order, inst_in, insts_in, is_answer,
    is_bracket, is_given, is_value, leads, led_to, operands, outgoing, plans_ok, reads_given, runs,
    sound, symbol_for, tables_ok, type_in, Bounds,
};
use crate::text::{before, Name};
use crate::types::HeadingView;
use vstd::multiset::Multiset;
use vstd::prelude::*;

verus! {

/// The machine type that a written type stands for holds no relation.
proof fn lemma_written_type(t: TypeRef)
    ensures
        written_type(t) matches Some(p) ==> type_in(p, 0),
    decreases t,
{
    if let Some(name) = t.name {
        if name@ == "Sequence"@ {
            if let Some(elem) = t.element {
                lemma_written_type(*elem);
            } else {
                reveal_with_fuel(type_in, 2);
            }
        }
    }
}

proof fn lemma_declared_params(params: Seq<(String, Option<TypeRef>)>, n: nat)
    ensures
        declared_params(params, n) matches Some(ps) ==> forall|i: int|
            0 <= i < ps.len() ==> type_in((#[trigger] ps[i]).1, 0),
    decreases n,
{
    if n > 0 {
        lemma_declared_params(params, (n - 1) as nat);
        if let Some(t) = params[n - 1].1 {
            lemma_written_type(t);
        }
    }
}

proof fn lemma_signature(o: OperDecl)
    ensures
        signature(o) matches Some(sig) ==> {
            &&& type_in(sig.1, 0)
            &&& forall|i: int| 0 <= i < sig.0.len() ==> type_in((#[trigger] sig.0[i]).1, 0)
        },
{
    lemma_declared_params(o.params@, o.params@.len());
    if let Some(t) = o.return_type {
        lemma_written_type(t);
    }
}

/// Whether nothing has been lowered yet.
spec fn is_blank(st: State) -> bool {
    &&& st.frame == empty_frame()
    &&& st.functions.len() == 0
    &&& st.value_types.len() == 0
    &&& st.seen.len() == 0
    &&& st.relir.len() == 0
    &&& !(st.stop is Some && st.stop->0 is Ask)
    &&& st.stop is None ==> tables_ok(st)
}

proof fn lemma_blank(st: State)
    requires
        is_blank(st),
    ensures
        sound(st),
{
    reveal(sound);
    assert(assigned(empty_frame()) =~= Seq::<ValueId>::empty());
    assert(st.relir =~= Seq::empty());
    lemma_order_of_none(st.env.answers, st.asked);
}

proof fn lemma_publics_known(st: State, resolved: Seq<ResolvedRelvar>, n: nat)
    requires
        is_blank(st),
    ensures
        is_blank(publics_known(st, resolved, n)),
    decreases n,
{
    if n > 0 {
        lemma_publics_known(st, resolved, (n - 1) as nat);
        let before = publics_known(st, resolved, (n - 1) as nat);
        let h = resolved[n - 1].heading@;
        lemma_blank(before);
        lemma_intern(before, h);
        reveal(State::intern);
        reveal(State::halted);
        reveal(State::add_public);
        reveal(sound);
    }
}

proof fn lemma_privates_known(st: State, privates: Seq<(Name, HeadingView)>, n: nat)
    requires
        is_blank(st),
    ensures
        is_blank(privates_known(st, privates, n)),
    decreases n,
{
    if n > 0 {
        lemma_privates_known(st, privates, (n - 1) as nat);
        let before = privates_known(st, privates, (n - 1) as nat);
        lemma_blank(before);
        lemma_intern(before, privates[n - 1].1);
        reveal(State::intern);
        reveal(State::halted);
        reveal(State::add_private);
        reveal(sound);
    }
}

proof fn lemma_opers_known(st: State, items: Seq<Item>, n: nat)
    requires
        is_blank(st),
    ensures
        is_blank(opers_known(st, items, n)),
    decreases n,
{
    if n > 0 {
        lemma_opers_known(st, items, (n - 1) as nat);
        reveal(State::add_oper);
        reveal(State::halted);
        if let Item::Oper(o) = items[n - 1] {
            lemma_signature(o);
        }
    }
}

/// Whether no function is being built, unless lowering has stopped.
spec fn is_idle(st: State) -> bool {
    st.stop is None ==> st.frame.blocks.len() == 0 && st.frame.insts.len() == 0
}

/// Whether the new queries are those of the new pushed expressions, unless
/// lowering has stopped.
spec fn told(a: State, b: State) -> bool {
    b.stop is None ==> tells(a, b)
}

proof fn lemma_told_on(a: State, b: State, c: State)
    requires
        told(a, b),
        told(b, c),
        grows(a, b),
        grows(b, c),
    ensures
        told(a, c),
{
    reveal(grows);
    if c.stop is None {
        lemma_tells_on(a, b, c);
    }
}

proof fn lemma_reset_function(st: State)
    requires
        sound(st),
        is_idle(st),
    ensures
        told(st, st.reset_function()),
        sound(st.reset_function()),
        grows(st, st.reset_function()),
        st.reset_function().frame == empty_frame(),
{
    reveal(State::reset_function);
    reveal(sound);
    reveal(grows);
    let out = st.reset_function();
    if st.stop is None {
        lemma_functions_stay(st.functions, st.value_types, bounds(st), bounds(out));
        assert(assigned(empty_frame()) =~= Seq::<ValueId>::empty());
        assert(st.frame.blocks =~= empty_frame().blocks);
        assert(st.frame.insts =~= empty_frame().insts);
        lemma_as_told(st, out);
    }
}

proof fn lemma_params_bound(st: State, params: Seq<(Name, ProcTypeView)>, n: nat)
    requires
        sound(st),
        st.frame == empty_frame(),
        n <= params.len(),
        forall|i: int| 0 <= i < params.len() ==> type_in((#[trigger] params[i]).1, 0),
    ensures
        ({
            let out = params_bound(st, params, n);
            &&& sound(out)
            &&& grows(st, out)
            &&& told(st, out)
            &&& out.frame.next_block == st.frame.next_block
            &&& out.frame.blocks == st.frame.blocks
            &&& out.frame.insts == st.frame.insts
            &&& out.stop is None ==> {
                &&& numbered(out.frame.param_ids)
                &&& out.frame.types.len() == n
                &&& out.frame.param_ids.len() == n
            }
        }),
    decreases n,
{
    if n == 0 {
        reveal(grows);
        lemma_as_told(st, st);
    } else {
        lemma_params_bound(st, params, (n - 1) as nat);
        let before = params_bound(st, params, (n - 1) as nat);
        let ty = params[n - 1].1;
        lemma_type_anywhere(ty, before.headings.len());
        let (after, v) = before.take_param(ty);
        lemma_take_param(before, ty);
        lemma_bind(after, params[n - 1].0, v, ty);
        let out = after.bind(params[n - 1].0, v, ty);
        assert(grows(after, out) && told(after, out)) by {
            reveal(runs);
        }
        assert(out.frame == (FrameView { scopes: out.frame.scopes, ..after.frame })) by {
            reveal(State::bind);
        }
        lemma_grows_on(st, before, after);
        lemma_grows_on(st, after, out);
        lemma_told_on(st, before, after);
        lemma_told_on(st, after, out);
        reveal(grows);
    }
}

proof fn lemma_add_function(
    st: State,
    name: Name,
    params: Seq<(Name, ProcTypeView)>,
    return_type: ProcTypeView,
)
    requires
        sound(st),
        closed_body(st),
        st.frame.insts.len() == 0,
        st.frame.params.len() == 0,
        st.stop is None && name == "main"@ ==> framed(st.frame.blocks),
        st.stop is None && is_bracket(name) ==> keys_of(st.env.opers).contains(name),
        st.stop is None ==> st.frame.param_ids.len() == params.len(),
    ensures
        sound(st.add_function(name, params, return_type)),
        is_idle(st.add_function(name, params, return_type)),
        told(st, st.add_function(name, params, return_type)),
        grows(st, st.add_function(name, params, return_type)),
        has_symbol(st.add_function(name, params, return_type).functions, name),
{
    reveal(State::add_function);
    reveal(sound);
    reveal(grows);
    let out = st.add_function(name, params, return_type);
    assert(out.functions[out.functions.len() - 1].linkage_name == name);
    if st.stop is None {
        lemma_body_ok(st);
        lemma_functions_stay(st.functions, st.value_types, bounds(st), bounds(out));
        assert(out.functions.drop_last() =~= st.functions);
        assert(queried(out) =~= queried(st));
        lemma_as_told(st, out);
        let f = out.functions.last();
        let n = st.frame.types.len();
        let of_st = Bounds { values: n, ..bounds(st) };
        let of_out = Bounds { values: n, ..bounds(out) };
        lemma_blocks_stay(
            f.blocks,
            Bounds { blocks: f.blocks.len(), ..of_st },
            Bounds { blocks: f.blocks.len(), ..of_out },
        );
        assert(body_ok(f.blocks, of_out));
        assert(function_ok(f, st.frame.types, bounds(out)));
        assert forall|i: int| 0 <= i < out.functions.len() implies function_ok(
            #[trigger] out.functions[i],
            out.value_types[i],
            bounds(out),
        ) by {
            if i < st.functions.len() {
                assert(out.functions[i] == st.functions[i]);
            }
        }
        assert forall|i: int| 0 <= i < out.seen.len() implies has_symbol(
            out.functions,
            symbol_for(#[trigger] out.seen[i]),
        ) by {
            assert(has_symbol(st.functions, symbol_for(st.seen[i])));
            lemma_symbol_stays(st.functions, out.functions, symbol_for(st.seen[i]));
        }
        assert(assigned(out.frame) =~= Seq::<ValueId>::empty());
    }
}

/// Code between the start of the run-time library, which led from `a` to `b`,
/// and its end, which led from `c` to `d`.
proof fn lemma_framed(a: State, b: State, c: State, d: State)
    requires
        a.frame.blocks.len() == 0,
        a.frame.insts.len() == 0,
        b.stop is None ==> {
            &&& b.frame.blocks == a.frame.blocks
            &&& b.frame.insts.len() == 1
            &&& is_call(b.frame.insts.last(), "coddl_runtime_init"@)
        },
        runs(b, d),
        d.stop is None ==> {
            &&& d.frame.insts.len() == c.frame.insts.len() + 1
            &&& is_call(d.frame.insts.last(), "coddl_runtime_shutdown"@)
        },
    ensures
        ({
            let out = d.finish_block(TerminatorView::Return(None));
            out.stop is None ==> framed(out.frame.blocks)
        }),
{
    reveal(State::finish_block);
    reveal(runs);
    reveal(grows);
}

/// The end of an operator whose code began in `first`, was `started` and then
/// lowered up to `last`.
proof fn lemma_oper_ended(
    first: State,
    started: State,
    last: State,
    name: Name,
    params: Seq<(Name, ProcTypeView)>,
    return_type: ProcTypeView,
    returned: Option<ValueId>,
)
    requires
        begun(first),
        sound(last),
        runs(first, last),
        runs(started, last),
        returned matches Some(v) ==> is_value(last, v),
        last.stop is None ==> keys_of(last.env.opers).contains(name),
        last.stop is None ==> last.frame.param_ids.len() == params.len(),
        name == "main"@ ==> {
            &&& returned is None
            &&& first.frame.blocks.len() == 0
            &&& first.frame.insts.len() == 0
            &&& started.stop is None ==> {
                &&& started.frame.blocks == first.frame.blocks
                &&& started.frame.insts.len() == 1
                &&& is_call(started.frame.insts.last(), "coddl_runtime_init"@)
            }
        },
    ensures
        ({
            let st = match returned {
                Some(v) => last.retain_escaping(v),
                None => last,
            };
            let st = st.release_scope().release_deferred();
            let st = if name == "main"@ {
                st.call_runtime("coddl_runtime_shutdown"@)
            } else {
                st
            };
            let out = st.finish_block(TerminatorView::Return(returned)).add_function(
                name,
                params,
                return_type,
            );
            &&& sound(out)
            &&& is_idle(out)
            &&& told(last, out)
            &&& grows(last, out)
            &&& has_symbol(out.functions, name)
        }),
{
    lemma_symbols();
    let st5 = match returned {
        Some(v) => last.retain_escaping(v),
        None => last,
    };
    lemma_runs_here(last);
    if let Some(v) = returned {
        lemma_retain_escaping(last, v);
    }
    lemma_release_scope(st5);
    lemma_release_deferred(st5.release_scope());
    let st6 = st5.release_scope().release_deferred();
    lemma_runs_on(last, st5, st5.release_scope());
    lemma_runs_on(last, st5.release_scope(), st6);
    lemma_runs_here(st6);
    lemma_call_runtime(st6, "coddl_runtime_shutdown"@);
    let st7 = if name == "main"@ {
        st6.call_runtime("coddl_runtime_shutdown"@)
    } else {
        st6
    };
    lemma_runs_on(last, st6, st7);
    lemma_runs_on(first, last, st7);
    lemma_runs_on(started, last, st7);
    let t = TerminatorView::Return(returned);
    assert(ends(st7, t)) by {
        reveal(runs);
        reveal(grows);
    }
    lemma_body_closes(first, st7, t);
    let closed = st7.finish_block(t);
    assert(grows(last, closed)) by {
        broadcast use {group_reaches, lemma_grows_on};

        reveal(runs);
    }
    assert(closed.frame.params.len() == 0 && closed.frame.insts.len() == 0) by {
        reveal(State::finish_block);
    }
    if name == "main"@ {
        lemma_framed(first, started, st6, st7);
    }
    assert(closed.env == last.env && (closed.stop is None ==> last.stop is None)) by {
        reveal(grows);
    }
    assert(closed.stop is None ==> closed.frame.param_ids == last.frame.param_ids) by {
        reveal(runs);
        reveal(State::finish_block);
    }
    lemma_add_function(closed, name, params, return_type);
    lemma_grows_on(last, closed, closed.add_function(name, params, return_type));
    assert(told(last, closed)) by {
        broadcast use group_reaches;

        reveal(reaches);
    }
    lemma_told_on(last, closed, closed.add_function(name, params, return_type));
}

/// The beginning of an operator.
proof fn lemma_oper_begun(st: State, params: Seq<(Name, ProcTypeView)>)
    requires
        sound(st),
        is_idle(st),
        forall|i: int| 0 <= i < params.len() ==> type_in((#[trigger] params[i]).1, 0),
    ensures
        ({
            let first = params_bound(st.reset_function(), params, params.len()).begin_body();
            &&& sound(first)
            &&& begun(first)
            &&& grows(st, first)
            &&& told(st, first)
            &&& first.stop is None ==> first.frame.param_ids.len() == params.len()
            &&& first.frame.blocks.len() == 0
            &&& first.frame.insts.len() == 0
        }),
{
    lemma_reset_function(st);
    let st1 = st.reset_function();
    lemma_params_bound(st1, params, params.len());
    let st2 = params_bound(st1, params, params.len());
    lemma_begin_body(st2);
    let first = st2.begin_body();
    assert(first.frame.blocks == st2.frame.blocks && first.frame.insts == st2.frame.insts
        && first.frame.param_ids == st2.frame.param_ids && (first.stop is None ==> st2.stop is None))
        by {
        reveal(State::begin_body);
        reveal(State::fresh_block);
        reveal(State::start_block);
        reveal(State::halted);
    }
    assert(grows(st2, first)) by {
        broadcast use group_reaches;

    }
    lemma_grows_on(st, st1, st2);
    lemma_grows_on(st, st2, first);
    assert(told(st2, first)) by {
        reveal(reaches);
    }
    lemma_told_on(st, st1, st2);
    lemma_told_on(st, st2, first);
}

proof fn lemma_oper_lowered(
    st: State,
    o: OperDecl,
    params: Seq<(Name, ProcTypeView)>,
    return_type: ProcTypeView,
)
    requires
        sound(st),
        is_idle(st),
        forall|i: int| 0 <= i < params.len() ==> type_in((#[trigger] params[i]).1, 0),
        st.stop is None ==> keys_of(st.env.opers).contains(o.name@),
    ensures
        is_idle(oper_lowered(st, o, params, return_type)),
        told(st, oper_lowered(st, o, params, return_type)),
        sound(oper_lowered(st, o, params, return_type)),
        grows(st, oper_lowered(st, o, params, return_type)),
        has_symbol(oper_lowered(st, o, params, return_type).functions, o.name@),
{
    reveal(oper_lowered);
    lemma_symbols();
    let is_main = o.name@ == "main"@;
    lemma_oper_begun(st, params);
    let first = params_bound(st.reset_function(), params, params.len()).begin_body();
    lemma_runs_here(first);
    lemma_call_runtime(first, "coddl_runtime_init"@);
    let started = if is_main {
        first.call_runtime("coddl_runtime_init"@)
    } else {
        first
    };
    lemma_runs_here(started);
    let (last, value) = match o.body {
        Some(b) => {
            let (st, v) = block_lowered(started, b);
            (st, Some(v))
        },
        None => (started, None),
    };
    if let Some(b) = o.body {
        lemma_block(started, b);
    }
    let returned = if is_main || return_type is Unit {
        None
    } else {
        value
    };
    lemma_runs_on(first, started, last);
    assert(grows(first, last) && told(first, last)) by {
        reveal(runs);
    }
    lemma_grows_on(st, first, last);
    lemma_told_on(st, first, last);
    assert(last.env == st.env && (last.stop is None ==> st.stop is None && first.stop is None)) by {
        reveal(grows);
    }
    assert(last.stop is None ==> last.frame.param_ids == first.frame.param_ids) by {
        reveal(runs);
    }
    lemma_oper_ended(first, started, last, o.name@, params, return_type, returned);
    lemma_grows_on(st, last, oper_lowered(st, o, params, return_type));
    lemma_told_on(st, last, oper_lowered(st, o, params, return_type));
}

/// Each operator that is known has a function in the end.
/// Whether the operators of the first `n` items are known.
spec fn opers_there(st: State, items: Seq<Item>, n: nat) -> bool {
    forall|i: int|
        0 <= i < n ==> (#[trigger] items[i] matches Item::Oper(o) ==> keys_of(
            st.env.opers,
        ).contains(o.name@))
}

/// What is put in is there, and so is what was there.
proof fn lemma_put_there<A>(s: Seq<(Name, A)>, name: Name, x: A)
    ensures
        keys_of(put_in(s, name, x)).contains(name),
        forall|k: Name| #[trigger]
            keys_of(s).contains(k) ==> keys_of(put_in(s, name, x)).contains(k),
        forall|k: Name| #[trigger]
            keys_of(put_in(s, name, x)).contains(k) ==> k == name || keys_of(s).contains(k),
{
    let t = put_in(s, name, x);
    lemma_name_index(keys_of(s), name);
    let n = name_index(keys_of(s), name);
    assert(keys_of(t)[n as int] == name);
    assert forall|k: Name| #[trigger] keys_of(s).contains(k) implies keys_of(t).contains(k) by {
        let i = choose|i: int| 0 <= i < s.len() && keys_of(s)[i] == k;
        assert(keys_of(t)[i] == k);
    }
    assert forall|k: Name| #[trigger] keys_of(t).contains(k) implies k == name || keys_of(
        s,
    ).contains(k) by {
        let i = choose|i: int| 0 <= i < t.len() && keys_of(t)[i] == k;
        if i != n {
            assert(keys_of(s)[i] == k);
        }
    }
}

proof fn lemma_opers_there(st: State, items: Seq<Item>, n: nat)
    requires
        n <= items.len(),
    ensures
        opers_known(st, items, n).stop is None ==> opers_there(
            opers_known(st, items, n),
            items,
            n,
        ),
        forall|k: Name| #[trigger]
            keys_of(opers_known(st, items, n).env.opers).contains(k) ==> keys_of(
                st.env.opers,
            ).contains(k) || exists|i: int|
                0 <= i < n && (#[trigger] items[i] matches Item::Oper(o) && o.name@ == k),
    decreases n,
{
    if n > 0 {
        lemma_opers_there(st, items, (n - 1) as nat);
        let known = opers_known(st, items, (n - 1) as nat);
        reveal(State::add_oper);
        reveal(State::halted);
        if let Item::Oper(o) = items[n - 1] {
            if let Some(sig) = signature(o) {
                lemma_put_there(known.env.opers, o.name@, sig);
            }
        }
    }
}

proof fn lemma_items_lowered(blank: State, st: State, items: Seq<Item>, n: nat)
    requires
        sound(st),
        n <= items.len(),
        st.stop is None ==> opers_known(blank, items, n).stop is None,
        blank.env.opers.len() == 0,
        st.stop is None ==> opers_there(st, items, n),
        is_idle(st),
    ensures
        is_idle(items_lowered(st, items, n)),
        told(st, items_lowered(st, items, n)),
        sound(items_lowered(st, items, n)),
        grows(st, items_lowered(st, items, n)),
        items_lowered(st, items, n).stop is None ==> forall|name: Name| #[trigger]
            keys_of(opers_known(blank, items, n).env.opers).contains(name) ==> has_symbol(
                items_lowered(st, items, n).functions,
                name,
            ),
    decreases n,
{
    broadcast use lemma_grows_on;

    if n == 0 {
        reveal(grows);
        lemma_as_told(st, st);
        assert(keys_of(opers_known(blank, items, 0).env.opers) =~= Seq::<Name>::empty());
    } else {
        let known = opers_known(blank, items, (n - 1) as nat);
        assert(st.stop is None ==> known.stop is None) by {
            reveal(State::add_oper);
            reveal(State::halted);
        }
        lemma_items_lowered(blank, st, items, (n - 1) as nat);
        let before = items_lowered(st, items, (n - 1) as nat);
        let after = items_lowered(st, items, n);
        match items[n - 1] {
            Item::Oper(o) => {
                lemma_signature(o);
                match signature(o) {
                    Some(sig) => {
                        assert(before.env == st.env && (before.stop is None ==> st.stop is None))
                            by {
                            reveal(grows);
                        }
                        lemma_oper_lowered(before, o, sig.0, sig.1);
                        lemma_told_on(st, before, after);
                        if after.stop is None {
                            assert(before.stop is None && begins(after.functions, before.functions))
                                by {
                                reveal(grows);
                            }
                            let keys = keys_of(known.env.opers);
                            let all = keys_of(opers_known(blank, items, n).env.opers);
                            assert forall|name: Name| #[trigger] all.contains(name)
                                implies has_symbol(after.functions, name) by {
                                reveal(State::add_oper);
                                if name != o.name@ {
                                    let i = choose|i: int| 0 <= i < all.len() && all[i] == name;
                                    lemma_name_index(keys, o.name@);
                                    assert(keys[i] == name);
                                    assert(keys.contains(name));
                                    lemma_symbol_stays(before.functions, after.functions, name);
                                }
                            }
                        }
                    },
                    None => {
                        lemma_halted(before, StopView::NotLowered);
                        assert(grows(before, after)) by {
                            reveal(runs);
                        }
                    },
                }
            },
            _ => {},
        }
    }
}

/// How far the numbers in a module's code may reach: every call leads to one of
/// its functions.
pub open spec fn module_bounds(m: ModuleView, queries: bool, writes: bool) -> Bounds {
    Bounds {
        values: 0,
        blocks: 0,
        headings: m.headings.len(),
        plans: m.plans.len(),
        functions: m.functions,
        opers: Seq::empty(),
        queries,
        writes,
    }
}

/// Whether a module is well formed:
///
/// * no heading stands twice in its table, and no function that is defined
///   elsewhere is declared twice;
/// * the plans are numbered by their places;
/// * headings, plans, blocks and functions that anything refers to are there;
/// * in each function the blocks are numbered from zero on, each once; the entry
///   block comes first, without parameters, and before every other block one that
///   leads to it; branches hand each block as many values as it has parameters;
///   no value is assigned twice; and what the code reads is a parameter of the
///   function or of a block, assigned by an instruction, or of type `Unit`;
/// * the database is asked only when `queries` holds, and written to only when
///   `writes` does.
///
/// `types` are the types of the values of each function.
pub open spec fn module_ok(
    m: ModuleView,
    types: Seq<Seq<ProcTypeView>>,
    queries: bool,
    writes: bool,
) -> bool {
    &&& m.headings.no_duplicates()
    &&& declared(m.functions).no_duplicates()
    &&& plans_ok(m.plans, m.headings.len())
    &&& m.plans.len() > 0 ==> queries
    &&& functions_ok(m.functions, types, module_bounds(m, queries, writes))
    &&& forall|i: int|
        0 <= i < m.functions.len() ==> reads_given(#[trigger] m.functions[i], types[i])
    &&& forall|i: int|
        0 <= i < m.public_relvars.len() ==> (#[trigger] m.public_relvars[i]).heading_id.0
            < m.headings.len()
    &&& forall|i: int|
        0 <= i < m.private_relvar_slots.len() ==> (#[trigger] m.private_relvar_slots[i]).1.0
            < m.headings.len()
}

/// Whether what is within the first bounds is within the second, by what can be
/// called.
spec fn covers(b: Bounds, c: Bounds) -> bool {
    &&& b.values == c.values
    &&& b.blocks == c.blocks
    &&& b.headings == c.headings
    &&& b.plans == c.plans
    &&& forall|name: Name| #[trigger] has_symbol(b.functions, name) ==> has_symbol(
        c.functions,
        name,
    )
    &&& forall|name: Name| #[trigger] callable(b, name) ==> callable(c, name)
    &&& b.queries ==> c.queries
    &&& b.writes ==> c.writes
}

proof fn lemma_blocks_move(s: Seq<BlockView>, b: Bounds, c: Bounds)
    requires
        covers(b, c),
        blocks_in(s, b),
    ensures
        blocks_in(s, c),
{
    assert forall|i: int| 0 <= i < s.len() implies block_in(#[trigger] s[i], c) by {
        assert(block_in(s[i], b));
        let insts = s[i].insts;
        assert forall|j: int| 0 <= j < insts.len() implies inst_in(#[trigger] insts[j], c) by {
            assert(inst_in(insts[j], b));
        }
    }
}

proof fn lemma_update_blocks(s: Seq<BlockView>, i: int, block: BlockView)
    requires
        0 <= i < s.len(),
        block.id == s[i].id,
        block.params == s[i].params,
        assigned_in(block.insts) == assigned_in(s[i].insts),
    ensures
        block_ids(s.update(i, block)) == block_ids(s),
        assigned_over(s.update(i, block)) == assigned_over(s),
    decreases s.len(),
{
    let t = s.drop_last();
    if i == s.len() - 1 {
        assert(s.update(i, block).drop_last() =~= t);
    } else {
        lemma_update_blocks(t, i, block);
        assert(s.update(i, block).drop_last() =~= t.update(i, block));
        assert(s.update(i, block).last() == s.last());
    }
}

proof fn lemma_assigned_concat(s: Seq<InstView>, t: Seq<InstView>)
    ensures
        assigned_in(s + t) == assigned_in(s) + assigned_in(t),
    decreases t.len(),
{
    if t.len() == 0 {
        assert(s + t =~= s);
        assert(assigned_in(s) + assigned_in(t) =~= assigned_in(s));
    } else {
        lemma_assigned_concat(s, t.drop_last());
        assert((s + t).drop_last() =~= s + t.drop_last());
        assert((s + t).last() == t.last());
        assert(assigned_in(s + t) =~= assigned_in(s) + assigned_in(t));
    }
}

/// Whether instructions assign no value, call no function and query nothing.
spec fn only_set_up(s: Seq<InstView>) -> bool {
    forall|i: int|
        0 <= i < s.len() ==> assigned_by(#[trigger] s[i]) is None && s[i] !is Call && s[i] !is Query
}

proof fn lemma_assigns_nothing(s: Seq<InstView>)
    requires
        only_set_up(s),
    ensures
        assigned_in(s) =~= Seq::<ValueId>::empty(),
    decreases s.len(),
{
    if s.len() > 0 {
        assert(assigned_by(s[s.len() - 1]) is None);
        lemma_assigns_nothing(s.drop_last());
    }
}

proof fn lemma_calling_block(blocks: Seq<BlockView>, callee: Name)
    ensures
        ({
            let i = calling_block(blocks, callee);
            &&& i <= blocks.len()
            &&& i < blocks.len() ==> call_index(blocks[i as int].insts, callee)
                < blocks[i as int].insts.len()
        }),
    decreases blocks.len(),
{
    if blocks.len() > 0 {
        lemma_calling_block(blocks.drop_first(), callee);
        if call_index(blocks[0].insts, callee) >= blocks[0].insts.len() {
            let i = calling_block(blocks.drop_first(), callee);
            if i < blocks.len() - 1 {
                assert(blocks[i as int + 1] == blocks.drop_first()[i as int]);
            }
        }
    }
}

proof fn lemma_spliced(
    blocks: Seq<BlockView>,
    callee: Name,
    offset: nat,
    added: Seq<InstView>,
    b: Bounds,
)
    requires
        blocks_in(blocks, b),
        insts_in(added, b),
        only_set_up(added),
        offset <= 1,
    ensures
        blocks_in(spliced(blocks, callee, offset, added), b),
        spliced(blocks, callee, offset, added).len() == blocks.len(),
        block_ids(spliced(blocks, callee, offset, added)) == block_ids(blocks),
        assigned_over(spliced(blocks, callee, offset, added)) == assigned_over(blocks),
        in_order(blocks) ==> in_order(spliced(blocks, callee, offset, added)),
        all_handed(blocks) ==> all_handed(spliced(blocks, callee, offset, added)),
{
    lemma_calling_block(blocks, callee);
    let i = calling_block(blocks, callee);
    if i < blocks.len() {
        let block = blocks[i as int];
        let at = call_index(block.insts, callee) + offset;
        let (head, tail) = (block.insts.take(at as int), block.insts.skip(at as int));
        let insts = head + added + tail;
        lemma_assigned_concat(head, added);
        lemma_assigned_concat(head + added, tail);
        lemma_assigned_concat(head, tail);
        lemma_assigns_nothing(added);
        assert(head + tail =~= block.insts);
        assert(assigned_in(insts) =~= assigned_in(block.insts));
        lemma_update_blocks(blocks, i as int, BlockView { insts, ..block });
        assert(block_in(block, b));
        assert forall|j: int| 0 <= j < insts.len() implies inst_in(#[trigger] insts[j], b) by {
            if j < at {
                assert(insts[j] == block.insts[j]);
            } else if j < at + added.len() {
                assert(insts[j] == added[j - at]);
            } else {
                assert(insts[j] == block.insts[j - added.len()]);
            }
        }
        let out = spliced(blocks, callee, offset, added);
        assert forall|j: int| 0 <= j < out.len() implies block_in(#[trigger] out[j], b) by {
            if j != i {
                assert(block_in(blocks[j], b));
            }
        }
        if all_handed(blocks) {
            assert forall|j: int, k: int|
                0 <= j < out.len() && 0 <= k < out.len() implies hands(
                (#[trigger] out[j]).terminator,
                (#[trigger] out[k]).id,
                out[k].params.len(),
            ) by {
                assert(hands(blocks[j].terminator, blocks[k].id, blocks[k].params.len()));
            }
        }
        if in_order(blocks) {
            assert forall|j: int| 0 < j < out.len() implies led_to(
                out,
                j,
                (#[trigger] out[j]).id,
            ) by {
                assert(led_to(blocks, j, blocks[j].id));
                let k = choose|k: int|
                    0 <= k < j && leads((#[trigger] blocks[k]).terminator, blocks[j].id);
                assert(out[k].terminator == blocks[k].terminator);
            }
        }
    }
}

proof fn lemma_current_public(
    publics: Seq<(RelvarView, WritePolicy)>,
    name: Name,
    i: int,
    headings: nat,
)
    requires
        0 <= i < publics.len(),
        publics[i].0.name == name,
        forall|j: int|
            0 <= j < publics.len() ==> (#[trigger] publics[j]).0.heading_id.0 < headings,
    ensures
        current_public(publics, name).heading_id.0 < headings,
    decreases publics.len(),
{
    let rest = publics.drop_last();
    assert(publics[publics.len() - 1].0.heading_id.0 < headings);
    if publics.last().0.name != name {
        assert forall|j: int| 0 <= j < rest.len() implies (#[trigger] rest[j]).0.heading_id.0
            < headings by {
            assert(rest[j] == publics[j]);
        }
        assert(rest[i] == publics[i]);
        lemma_current_public(rest, name, i, headings);
    }
}

proof fn lemma_public_inits(
    publics: Seq<(RelvarView, WritePolicy)>,
    legacy: Seq<Name>,
    n: nat,
    b: Bounds,
)
    requires
        n <= publics.len(),
        forall|j: int|
            0 <= j < publics.len() ==> (#[trigger] publics[j]).0.heading_id.0 < b.headings,
    ensures
        insts_in(public_inits(publics, legacy, n), b),
        only_set_up(public_inits(publics, legacy, n)),
        insts_in(public_releases(publics, legacy, n), b),
        only_set_up(public_releases(publics, legacy, n)),
    decreases n,
{
    if n > 0 {
        lemma_public_inits(publics, legacy, (n - 1) as nat, b);
        lemma_current_public(publics, publics[n - 1].0.name, n - 1, b.headings);
    }
}

proof fn lemma_used_slots(
    privates: Seq<(Name, HeadingId)>,
    used: Seq<Name>,
    n: nat,
    headings: nat,
)
    requires
        n <= privates.len(),
        forall|j: int| 0 <= j < privates.len() ==> (#[trigger] privates[j]).1.0 < headings,
    ensures
        forall|j: int|
            0 <= j < used_slots(privates, used, n).len() ==> (#[trigger] used_slots(
                privates,
                used,
                n,
            )[j]).1.0 < headings,
    decreases n,
{
    if n > 0 {
        lemma_used_slots(privates, used, (n - 1) as nat, headings);
        assert(privates[n - 1].1.0 < headings);
        let before = used_slots(privates, used, (n - 1) as nat);
        let slots = used_slots(privates, used, n);
        assert forall|j: int| 0 <= j < slots.len() implies (#[trigger] slots[j]).1.0
            < headings by {
            if j < before.len() {
                assert(slots[j] == before[j]);
            }
        }
    }
}

/// What a program begins and ends with refers to what is there.
proof fn lemma_prologue(st: State, b: Bounds)
    requires
        tables_ok(st),
        b.headings == st.headings.len(),
        b.plans == st.plans.len(),
    ensures
        insts_in(prologue(st), b),
        only_set_up(prologue(st)),
        insts_in(epilogue(st), b),
        only_set_up(epilogue(st)),
{
    let (publics, privates) = (st.env.publics, st.env.privates);
    lemma_public_inits(publics, st.legacy, publics.len(), b);
    lemma_used_slots(privates, st.used_private, privates.len(), b.headings);
    let slots = used_slots(privates, st.used_private, privates.len());
    let registrations = plan_registrations(st.plans);
    assert forall|i: int| 0 <= i < registrations.len() implies inst_in(
        #[trigger] registrations[i],
        b,
    ) && assigned_by(registrations[i]) is None by {
        if i > 0 {
            assert(st.plans[i - 1].plan_id == i - 1);
        }
    }
    let inits = public_inits(publics, st.legacy, publics.len());
    let all = prologue(st);
    assert forall|i: int| 0 <= i < all.len() implies inst_in(#[trigger] all[i], b) && assigned_by(
        all[i],
    ) is None by {
        if i < registrations.len() {
            assert(all[i] == registrations[i]);
        } else if i < registrations.len() + inits.len() {
            assert(all[i] == inits[i - registrations.len()]);
        } else {
            let j = i - registrations.len() - inits.len();
            assert(slots[j].1.0 < b.headings);
        }
    }
    let releases = public_releases(publics, st.legacy, publics.len());
    let ends = epilogue(st);
    assert forall|i: int| 0 <= i < ends.len() implies inst_in(#[trigger] ends[i], b)
        && assigned_by(ends[i]) is None by {
        if i < releases.len() {
            assert(ends[i] == releases[i]);
        }
    }
}

proof fn lemma_function_index(functions: Seq<FunctionView>, name: Name)
    ensures
        function_index(functions, name) <= functions.len(),
        function_index(functions, name) < functions.len() ==> functions[function_index(
            functions,
            name,
        ) as int].name == name,
    decreases functions.len(),
{
    if functions.len() > 0 {
        lemma_function_index(functions.drop_first(), name);
    }
}

proof fn lemma_update_declared(s: Seq<FunctionView>, i: int, f: FunctionView)
    requires
        0 <= i < s.len(),
        f.name == s[i].name,
        f.blocks.len() == s[i].blocks.len(),
    ensures
        declared(s.update(i, f)) == declared(s),
    decreases s.len(),
{
    let t = s.drop_last();
    if i == s.len() - 1 {
        assert(s.update(i, f).drop_last() =~= t);
    } else {
        lemma_update_declared(t, i, f);
        assert(s.update(i, f).drop_last() =~= t.update(i, f));
    }
}

/// The functions of a module: those of the state, with calls resolved.
proof fn lemma_module_functions(st: State, m: ModuleView, queries: bool, writes: bool)
    requires
        sound(st),
        st.stop is None,
        forall|name: Name| #[trigger]
            keys_of(st.env.opers).contains(name) ==> has_symbol(st.functions, name),
        m.functions == with_prologue(st.functions, prologue(st), epilogue(st)),
        m.headings == st.headings,
        m.plans == st.plans,
        bounds(st).queries ==> queries,
        bounds(st).writes ==> writes,
    ensures
        functions_ok(m.functions, st.value_types, module_bounds(m, queries, writes)),
        declared(m.functions) == declared(st.functions),
{
    reveal(sound);
    let b = bounds(st);
    let c = module_bounds(m, queries, writes);
    let main = function_index(st.functions, "main"@);
    lemma_function_index(st.functions, "main"@);
    assert(m.functions.len() == st.functions.len());
    if main < st.functions.len() {
        lemma_update_declared(st.functions, main as int, m.functions[main as int]);
    }
    assert forall|name: Name| #[trigger] has_symbol(st.functions, name) implies has_symbol(
        m.functions,
        name,
    ) by {
        let i = choose|i: int|
            0 <= i < st.functions.len() && (#[trigger] st.functions[i]).linkage_name == name;
        assert(m.functions[i].linkage_name == name);
    }
    assert forall|i: int| 0 <= i < m.functions.len() implies function_ok(
        #[trigger] m.functions[i],
        st.value_types[i],
        c,
    ) by {
        let old_blocks = st.functions[i].blocks;
        let new_blocks = m.functions[i].blocks;
        assert(function_ok(st.functions[i], st.value_types[i], b));
        if new_blocks.len() > 0 {
            let middle = if prologue(st).len() == 0 {
                old_blocks
            } else {
                spliced(old_blocks, "coddl_runtime_init"@, 1, prologue(st))
            };
            if old_blocks.len() == 0 {
                lemma_calling_block(old_blocks, "coddl_runtime_init"@);
                lemma_calling_block(middle, "coddl_runtime_shutdown"@);
                assert(middle =~= old_blocks);
                assert(false);
            }
            let types = st.value_types[i];
            let n = types.len();
            let of_b = Bounds { values: n, ..b };
            let of_c = Bounds { values: n, ..c };
            let inner_b = Bounds { blocks: old_blocks.len(), ..of_b };
            let inner_c = Bounds { blocks: old_blocks.len(), ..of_c };
            lemma_blocks_move(old_blocks, inner_b, inner_c);
            lemma_prologue(st, inner_c);
            if i == main {
                lemma_spliced(old_blocks, "coddl_runtime_init"@, 1, prologue(st), inner_c);
                lemma_spliced(middle, "coddl_runtime_shutdown"@, 0, epilogue(st), inner_c);
            }
            assert(body_ok(new_blocks, of_c));
            let params = st.functions[i].params.len();
            assert forall|v: ValueId| v.0 < types.len() implies #[trigger] is_given(
                v,
                params,
                new_blocks,
                types,
            ) by {
                assert(is_given(v, params, old_blocks, types));
            }
        }
    }
}

proof fn lemma_opers_later(st: State, resolved: Seq<ResolvedRelvar>, n: nat)
    ensures
        publics_known(st, resolved, n).env.opers == st.env.opers,
    decreases n,
{
    if n > 0 {
        lemma_opers_later(st, resolved, (n - 1) as nat);
        reveal(State::intern);
        reveal(State::halted);
        reveal(State::add_public);
    }
}

proof fn lemma_opers_last(st: State, privates: Seq<(Name, HeadingView)>, n: nat)
    ensures
        privates_known(st, privates, n).env.opers == st.env.opers,
    decreases n,
{
    if n > 0 {
        lemma_opers_last(st, privates, (n - 1) as nat);
        reveal(State::intern);
        reveal(State::halted);
        reveal(State::add_private);
    }
}

/// What holds of the state in which lowering a program ends.
proof fn lemma_program(
    program: CheckedProgram,
    plan: Option<&Plan>,
    answers: Seq<Option<QueryView>>,
)
    ensures
        ({
            let st = program_lowered(program, plan, answers);
            &&& sound(st)
            &&& st.stop is None ==> forall|name: Name| #[trigger]
                keys_of(st.env.opers).contains(name) ==> has_symbol(st.functions, name)
            &&& st.stop is None ==> {
                &&& queried_by(st.functions, st.plans).len() == st.relir.len()
                &&& texts_by_key(st.env.answers) ==> queried_by(st.functions, st.plans)
                    == entry_texts(st.relir)
            }
        }),
{
    let first = initial_state(plan_db_name(plan), plan is Some, plan_pushes(plan), answers);
    let st1 = match plan {
        Some(p) => publics_known(first, p.resolved@, p.resolved@.len()),
        None => first,
    };
    if let Some(p) = plan {
        lemma_publics_known(first, p.resolved@, p.resolved@.len());
        lemma_opers_later(first, p.resolved@, p.resolved@.len());
    }
    let privates = private_relvars(program.relvars@, program.relvars@.len());
    let st2 = privates_known(st1, privates, privates.len());
    lemma_privates_known(st1, privates, privates.len());
    lemma_opers_last(st1, privates, privates.len());
    let items = program.items@;
    let st3 = opers_known(st2, items, items.len());
    lemma_opers_known(st2, items, items.len());
    lemma_blank(st3);
    lemma_opers_there(st2, items, items.len());
    lemma_items_lowered(st2, st3, items, items.len());
    reveal(grows);
    let out = items_lowered(st3, items, items.len());
    if out.stop is None {
        reveal(tells);
        let none = Multiset::<Seq<char>>::empty();
        assert(queried(st3) =~= none);
        assert(entry_texts(st3.relir) =~= none);
        assert(out.frame.blocks.len() == 0 && out.frame.insts.len() == 0);
        assert(queried(out) =~= queried_by(out.functions, out.plans));
        assert(queried(out).add(none) =~= queried(out));
        assert(none.add(entry_texts(out.relir)) =~= entry_texts(out.relir));
    }
}

/// Whether a plan lets the database be written to: it is one that takes
/// statements, and one of the relvars can be written to.
pub open spec fn plan_writes(plan: Option<&Plan>) -> bool {
    plan matches Some(p) && plan_pushes(plan) && exists|i: int|
        0 <= i < p.resolved@.len() && (#[trigger] p.resolved@[i]).write_policy
            == WritePolicy::ReadWrite
}

proof fn lemma_publics_of_plan(st: State, resolved: Seq<ResolvedRelvar>, n: nat)
    requires
        st.env.publics.len() == 0,
        n <= resolved.len(),
    ensures
        ({
            let out = publics_known(st, resolved, n);
            &&& out.env.pushes == st.env.pushes
            &&& out.env.planned == st.env.planned
            &&& out.env.privates == st.env.privates
            &&& out.env.publics.len() == n
            &&& forall|i: int|
                0 <= i < n ==> (#[trigger] out.env.publics[i]).1 == resolved[i].write_policy
        }),
    decreases n,
{
    if n > 0 {
        lemma_publics_of_plan(st, resolved, (n - 1) as nat);
        reveal(State::intern);
        reveal(State::halted);
        reveal(State::add_public);
    }
}

/// Whether the private relvars that are known are the first `n` of these.
spec fn named_as(st: State, privates: Seq<(Name, HeadingView)>, n: nat) -> bool {
    &&& st.env.privates.len() == n
    &&& forall|i: int| 0 <= i < n ==> (#[trigger] st.env.privates[i]).0 == privates[i].0
}

proof fn lemma_privates_keep_publics(st: State, privates: Seq<(Name, HeadingView)>, n: nat)
    ensures
        privates_known(st, privates, n).env.publics == st.env.publics,
        privates_known(st, privates, n).env.pushes == st.env.pushes,
        privates_known(st, privates, n).env.planned == st.env.planned,
        st.env.privates.len() == 0 ==> named_as(privates_known(st, privates, n), privates, n),
    decreases n,
{
    if n > 0 {
        lemma_privates_keep_publics(st, privates, (n - 1) as nat);
        reveal(State::intern);
        reveal(State::halted);
        reveal(State::add_private);
    }
}

proof fn lemma_opers_keep_publics(st: State, items: Seq<Item>, n: nat)
    ensures
        opers_known(st, items, n).env.publics == st.env.publics,
        opers_known(st, items, n).env.privates == st.env.privates,
        opers_known(st, items, n).env.pushes == st.env.pushes,
        opers_known(st, items, n).env.planned == st.env.planned,
    decreases n,
{
    if n > 0 {
        lemma_opers_keep_publics(st, items, (n - 1) as nat);
        reveal(State::add_oper);
        reveal(State::halted);
    }
}

/// The database is asked and written to as the plan allows.
/// Whether one of the items is an operator of that name.
pub open spec fn is_oper(items: Seq<Item>, name: Name) -> bool {
    exists|i: int|
        0 <= i < items.len() && (#[trigger] items[i] matches Item::Oper(o) && o.name@ == name)
}

proof fn lemma_env_of_plan(
    program: CheckedProgram,
    plan: Option<&Plan>,
    answers: Seq<Option<QueryView>>,
)
    ensures
        ({
            let b = bounds(program_lowered(program, plan, answers));
            &&& b.queries == plan_pushes(plan)
            &&& b.writes ==> plan_writes(plan)
        }),
        ({
            let privates = private_relvars(program.relvars@, program.relvars@.len());
            named_as(program_lowered(program, plan, answers), privates, privates.len())
        }),
        ({
            let env = program_lowered(program, plan, answers).env;
            &&& env.planned == plan is Some
            &&& plan is None ==> env.publics.len() == 0
            &&& forall|name: Name| #[trigger]
                keys_of(env.opers).contains(name) ==> is_oper(program.items@, name)
        }),
{
    let first = initial_state(plan_db_name(plan), plan is Some, plan_pushes(plan), answers);
    let st1 = match plan {
        Some(p) => publics_known(first, p.resolved@, p.resolved@.len()),
        None => first,
    };
    if let Some(p) = plan {
        lemma_publics_of_plan(first, p.resolved@, p.resolved@.len());
        lemma_publics_known(first, p.resolved@, p.resolved@.len());
        lemma_opers_later(first, p.resolved@, p.resolved@.len());
    }
    let privates = private_relvars(program.relvars@, program.relvars@.len());
    let st2 = privates_known(st1, privates, privates.len());
    lemma_privates_keep_publics(st1, privates, privates.len());
    lemma_privates_known(st1, privates, privates.len());
    lemma_opers_last(st1, privates, privates.len());
    let items = program.items@;
    let st3 = opers_known(st2, items, items.len());
    lemma_opers_keep_publics(st2, items, items.len());
    lemma_opers_known(st2, items, items.len());
    lemma_blank(st3);
    lemma_opers_there(st2, items, items.len());
    lemma_items_lowered(st2, st3, items, items.len());
    reveal(grows);
    let out = program_lowered(program, plan, answers);
    if bounds(out).writes {
        let i = choose|i: int|
            0 <= i < out.env.publics.len() && (#[trigger] out.env.publics[i]).1
                == WritePolicy::ReadWrite;
        assert(plan is Some);
        assert(plan->0.resolved@[i].write_policy == WritePolicy::ReadWrite);
    }
}

/// What is within the bounds of a function whose values are all given is given.
proof fn lemma_reads_given(f: FunctionView, types: Seq<ProcTypeView>, b: Bounds)
    requires
        function_ok(f, types, b),
    ensures
        reads_given(f, types),
{
    let (params, blocks) = (f.params.len(), f.blocks);
    let inner = Bounds { values: types.len(), blocks: blocks.len(), ..b };
    assert forall|i: int, j: int|
        0 <= i < blocks.len() && 0 <= j < blocks[i].insts.len() implies are_given(
        operands(#[trigger] blocks[i].insts[j]),
        params,
        blocks,
        types,
    ) by {
        assert(block_in(blocks[i], inner));
        assert(inst_in(blocks[i].insts[j], inner));
        lemma_operands_in(blocks[i].insts[j], inner);
        lemma_are_given(operands(blocks[i].insts[j]), params, blocks, types);
    }
    assert forall|i: int| 0 <= i < blocks.len() implies are_given(
        outgoing((#[trigger] blocks[i]).terminator),
        params,
        blocks,
        types,
    ) by {
        assert(block_in(blocks[i], inner));
        lemma_are_given(outgoing(blocks[i].terminator), params, blocks, types);
    }
}

proof fn lemma_are_given(
    vs: Seq<ValueId>,
    params: nat,
    blocks: Seq<BlockView>,
    types: Seq<ProcTypeView>,
)
    requires
        all_in(vs, types.len()),
        all_given(params, blocks, types),
    ensures
        are_given(vs, params, blocks, types),
{
    assert forall|i: int| 0 <= i < vs.len() implies is_given(
        #[trigger] vs[i],
        params,
        blocks,
        types,
    ) by {
        assert(vs[i].0 < types.len());
    }
}

/// What an instruction within bounds reads is a value.
proof fn lemma_operands_in(i: InstView, b: Bounds)
    requires
        inst_in(i, b),
    ensures
        all_in(operands(i), b.values),
{
    let vs = operands(i);
    assert forall|k: int| 0 <= k < vs.len() implies (#[trigger] vs[k]).0 < b.values by {
        match i {
            InstView::TupleLit { fields, .. } => {
                assert(fields[k].1.0 < b.values);
            },
            InstView::Query { params, rels, .. } => {
                if k < params.len() {
                    assert(params[k].0.0 < b.values);
                } else {
                    assert(rels[k - params.len()].0.0 < b.values);
                }
            },
            InstView::Dml { params, .. } => {
                assert(params[k].0.0 < b.values);
            },
            _ => {},
        }
    }
}

/// Every module that lowering makes is well formed, for the types that lowering gave
/// its values: what its code reads is a parameter of the function or of a block or
/// assigned by an instruction, but for the placeholders of type `Unit`. Without a
/// plan, or with one for another kind of database, it asks the database nothing;
/// without a relvar that can be written to, it writes nothing.
pub proof fn law_modules_are_well_formed(
    program: CheckedProgram,
    plan: Option<&Plan>,
    answers: Seq<Option<QueryView>>,
    collect: bool,
)
    ensures
        outcome(program, plan, answers, collect) matches LoweredView::Done {
            module: Some(m),
            ..
        } ==> module_ok(
            m,
            program_lowered(program, plan, answers).value_types,
            plan_pushes(plan),
            plan_writes(plan),
        ),
{
    let st = program_lowered(program, plan, answers);
    lemma_program(program, plan, answers);
    match outcome(program, plan, answers, collect) {
        LoweredView::Done { module: Some(m), .. } => {
            lemma_env_of_plan(program, plan, answers);
            lemma_module_functions(st, m, plan_pushes(plan), plan_writes(plan));
            let c = module_bounds(m, plan_pushes(plan), plan_writes(plan));
            assert forall|i: int| 0 <= i < m.functions.len() implies reads_given(
                #[trigger] m.functions[i],
                st.value_types[i],
            ) by {
                lemma_reads_given(m.functions[i], st.value_types[i], c);
            }
            reveal(sound);
            let (publics, privates) = (st.env.publics, st.env.privates);
            assert forall|i: int| 0 <= i < m.public_relvars.len() implies (
            #[trigger] m.public_relvars[i]).heading_id.0 < m.headings.len() by {
                lemma_current_public(publics, publics[i].0.name, i, st.headings.len());
            }
            lemma_used_slots(privates, st.used_private, privates.len(), st.headings.len());
        },
        _ => {},
    }
}

proof fn lemma_call_index(insts: Seq<InstView>, callee: Name)
    ensures
        call_index(insts, callee) < insts.len() ==> is_call(
            insts[call_index(insts, callee) as int],
            callee,
        ),
    decreases insts.len(),
{
    if insts.len() > 0 {
        lemma_call_index(insts.drop_first(), callee);
    }
}

/// Code that calls a function does so in some block.
proof fn lemma_called_in(blocks: Seq<BlockView>, i: int, j: int, callee: Name)
    requires
        0 <= i < blocks.len(),
        0 <= j < blocks[i].insts.len(),
        is_call(blocks[i].insts[j], callee),
    ensures
        calling_block(blocks, callee) <= i,
    decreases blocks.len(),
{
    if i == 0 {
        lemma_calls_in(blocks[0].insts, j, callee);
    } else {
        assert(blocks.drop_first()[i - 1] == blocks[i]);
        lemma_called_in(blocks.drop_first(), i - 1, j, callee);
    }
}

proof fn lemma_calls_in(insts: Seq<InstView>, j: int, callee: Name)
    requires
        0 <= j < insts.len(),
        is_call(insts[j], callee),
    ensures
        call_index(insts, callee) <= j,
    decreases insts.len(),
{
    if j > 0 {
        assert(insts.drop_first()[j - 1] == insts[j]);
        lemma_calls_in(insts.drop_first(), j - 1, callee);
    }
}

/// Whether instructions stand directly before a call of a function.
pub open spec fn before_call(
    s: Seq<BlockView>,
    i: int,
    at: int,
    added: Seq<InstView>,
    callee: Name,
) -> bool {
    &&& 0 <= i < s.len()
    &&& 0 <= at && at + added.len() < s[i].insts.len()
    &&& s[i].insts.subrange(at, at + added.len()) == added
    &&& is_call(s[i].insts[at + added.len()], callee)
}

/// Whether code starts and ends the run-time library, with the first instructions
/// directly behind its start and the last ones directly before an end of it.
pub open spec fn is_set_up(s: Seq<BlockView>, first: Seq<InstView>, last: Seq<InstView>) -> bool {
    &&& framed(s)
    &&& s[0].insts.len() > first.len()
    &&& s[0].insts.subrange(1, first.len() as int + 1) == first
    &&& exists|i: int, at: int| #[trigger]
        before_call(s, i, at, last, "coddl_runtime_shutdown"@)
}

proof fn lemma_nothing_spliced(
    blocks: Seq<BlockView>,
    callee: Name,
    offset: nat,
    added: Seq<InstView>,
)
    requires
        added.len() == 0,
        offset <= 1,
    ensures
        spliced(blocks, callee, offset, added) == blocks,
{
    lemma_calling_block(blocks, callee);
    let i = calling_block(blocks, callee);
    if i < blocks.len() {
        let insts = blocks[i as int].insts;
        let at = (call_index(insts, callee) + offset) as int;
        assert(insts.take(at) + added + insts.skip(at) =~= insts);
    }
    assert(spliced(blocks, callee, offset, added) =~= blocks);
}

/// The start of a program behind that of the run-time library, and its end
/// before that of it.
proof fn lemma_both_spliced(blocks: Seq<BlockView>, first: Seq<InstView>, last: Seq<InstView>)
    requires
        framed(blocks),
        only_set_up(first),
    ensures
        ({
            let middle = if first.len() == 0 {
                blocks
            } else {
                spliced(blocks, "coddl_runtime_init"@, 1, first)
            };
            let out = if last.len() == 0 {
                middle
            } else {
                spliced(middle, "coddl_runtime_shutdown"@, 0, last)
            };
            is_set_up(out, first, last)
        }),
{
    let (init, shutdown) = ("coddl_runtime_init"@, "coddl_runtime_shutdown"@);
    let middle = spliced(blocks, init, 1, first);
    let out = spliced(middle, shutdown, 0, last);
    lemma_called_in(blocks, 0, 0, init);
    lemma_calls_in(blocks[0].insts, 0, init);
    if first.len() == 0 {
        lemma_nothing_spliced(blocks, init, 1, first);
    }
    if last.len() == 0 {
        lemma_nothing_spliced(middle, shutdown, 0, last);
    }
    assert(init != shutdown) by {
        reveal_strlit("coddl_runtime_init");
        reveal_strlit("coddl_runtime_shutdown");
        assert(init.len() == 18 && shutdown.len() == 22);
    }
    assert(framed(middle));
    assert(middle[0].insts.subrange(1, first.len() as int + 1) =~= first);
    let end = middle.len() - 1;
    lemma_called_in(middle, end, middle[end].insts.len() - 1, shutdown);
    lemma_calling_block(middle, shutdown);
    let i = calling_block(middle, shutdown) as int;
    let at = call_index(middle[i].insts, shutdown) as int;
    lemma_call_index(middle[i].insts, shutdown);
    if i == 0 && 1 <= at <= first.len() {
        assert(middle[0].insts[at] == first[at - 1]);
    }
    assert(i == 0 ==> at > first.len());
    assert(out[0].insts.subrange(1, first.len() as int + 1) =~= first);
    assert(out[end].insts.last() == middle[end].insts.last());
    assert(framed(out));
    assert(out[i].insts.subrange(at, at + last.len()) =~= last);
    assert(before_call(out, i, at, last, shutdown));
    assert(is_set_up(out, first, last));
}

proof fn lemma_same_names(s: Seq<FunctionView>, t: Seq<FunctionView>, name: Name)
    requires
        s.len() == t.len(),
        forall|i: int| 0 <= i < s.len() ==> (#[trigger] s[i]).name == t[i].name,
    ensures
        function_index(s, name) == function_index(t, name),
    decreases s.len(),
{
    if s.len() > 0 {
        assert forall|i: int| 0 <= i < s.drop_first().len() implies (
        #[trigger] s.drop_first()[i]).name == t.drop_first()[i].name by {
            assert(s[i + 1].name == t[i + 1].name);
        }
        assert(s[0].name == t[0].name);
        lemma_same_names(s.drop_first(), t.drop_first(), name);
    }
}

/// `main` begins with the call that starts the run-time library; directly behind
/// it the database and the plans are registered and the slots in use filled. The
/// slots are released directly before a call that ends the library, and with such
/// a call `main` ends.
pub proof fn law_main_starts_and_ends_the_runtime(
    program: CheckedProgram,
    plan: Option<&Plan>,
    answers: Seq<Option<QueryView>>,
    collect: bool,
)
    ensures
        outcome(program, plan, answers, collect) matches LoweredView::Done {
            module: Some(m),
            ..
        } ==> {
            let st = program_lowered(program, plan, answers);
            let main = function_index(m.functions, "main"@);
            main < m.functions.len() ==> is_set_up(
                m.functions[main as int].blocks,
                prologue(st),
                epilogue(st),
            )
        },
{
    let st = program_lowered(program, plan, answers);
    lemma_program(program, plan, answers);
    match outcome(program, plan, answers, collect) {
        LoweredView::Done { module: Some(m), .. } => {
            reveal(sound);
            lemma_prologue(st, bounds(st));
            lemma_function_index(st.functions, "main"@);
            lemma_same_names(m.functions, st.functions, "main"@);
            let main = function_index(st.functions, "main"@);
            if main < st.functions.len() {
                let blocks = st.functions[main as int].blocks;
                assert(framed(blocks));
                lemma_both_spliced(blocks, prologue(st), epilogue(st));
            }
        },
        _ => {},
    }
}

/// Without a plan a module has no public relvar and no plan, it declares neither
/// the function that begins a transaction nor the one that commits it, and holds
/// one of such a name only where the program has an operator of that name.
pub proof fn law_no_transactions_without_plan(
    program: CheckedProgram,
    answers: Seq<Option<QueryView>>,
    collect: bool,
)
    ensures
        outcome(program, None, answers, collect) matches LoweredView::Done {
            module: Some(m),
            ..
        } ==> {
            &&& m.public_relvars.len() == 0
            &&& m.plans.len() == 0
            &&& forall|i: int|
                0 <= i < m.functions.len() && (#[trigger] m.functions[i]).blocks.len() == 0
                    ==> !is_bracket(m.functions[i].linkage_name)
            &&& has_symbol(m.functions, "coddl_begin_tx"@) ==> is_oper(
                program.items@,
                "coddl_begin_tx"@,
            )
            &&& has_symbol(m.functions, "coddl_commit_tx"@) ==> is_oper(
                program.items@,
                "coddl_commit_tx"@,
            )
        },
{
    let st = program_lowered(program, None, answers);
    lemma_program(program, None, answers);
    lemma_env_of_plan(program, None, answers);
    match outcome(program, None, answers, collect) {
        LoweredView::Done { module: Some(m), .. } => {
            reveal(sound);
            lemma_function_index(st.functions, "main"@);
            lemma_module_functions(st, m, false, false);
            assert forall|i: int| 0 <= i < m.functions.len() implies is_bracket(
                (#[trigger] m.functions[i]).linkage_name,
            ) ==> m.functions[i].blocks.len() > 0 && is_oper(
                program.items@,
                m.functions[i].linkage_name,
            ) by {
                let f = st.functions[i];
                assert(f.linkage_name == m.functions[i].linkage_name);
                if f.name == "main"@ {
                    assert(framed(f.blocks));
                    lemma_both_spliced(f.blocks, prologue(st), epilogue(st));
                }
            }
        },
        _ => {},
    }
}

/// Whether no name comes after one that it precedes.
pub open spec fn in_name_order<A>(s: Seq<(Name, A)>) -> bool {
    forall|i: int, j: int|
        0 <= i < j < s.len() ==> !before((#[trigger] s[j]).0, (#[trigger] s[i]).0)
}

proof fn lemma_insert_relvar(s: Seq<(Name, HeadingView)>, x: (Name, HeadingView))
    requires
        in_name_order(s),
    ensures
        in_name_order(insert_relvar(s, x)),
        forall|i: int|
            0 <= i < insert_relvar(s, x).len() ==> (#[trigger] insert_relvar(s, x)[i]) == x
                || s.contains(insert_relvar(s, x)[i]),
    decreases s.len(),
{
    let out = insert_relvar(s, x);
    if s.len() > 0 && before(x.0, s.last().0) {
        let front = s.drop_last();
        lemma_insert_relvar(front, x);
        let put = insert_relvar(front, x);
        assert forall|i: int| 0 <= i < put.len() implies (#[trigger] put[i]) == x || s.contains(
            put[i],
        ) && !before(s.last().0, put[i].0) by {
            if put[i] != x {
                let k = choose|k: int| 0 <= k < front.len() && front[k] == put[i];
                assert(s[k] == put[i]);
                assert(!before(s[s.len() - 1].0, s[k].0));
            }
        }
        law_name_order(x.0, s.last().0, x.0);
        assert(s.contains(s.last()));
    } else {
        assert forall|i: int| 0 <= i < s.len() implies !before(x.0, (#[trigger] s[i]).0) by {
            law_name_order(x.0, s[i].0, s.last().0);
            law_name_order(s[i].0, s.last().0, x.0);
            if i < s.len() - 1 {
                assert(!before(s[s.len() - 1].0, s[i].0));
            }
        }
        assert forall|i: int| 0 <= i < out.len() implies (#[trigger] out[i]) == x || s.contains(
            out[i],
        ) by {
            if i < s.len() {
                assert(s[i] == out[i]);
            }
        }
    }
}

proof fn lemma_private_relvars(relvars: Seq<RelvarInfo>, n: nat)
    ensures
        in_name_order(private_relvars(relvars, n)),
    decreases n,
{
    if n > 0 {
        lemma_private_relvars(relvars, (n - 1) as nat);
        lemma_insert_relvar(
            private_relvars(relvars, (n - 1) as nat),
            (relvars[n - 1].name@, relvars[n - 1].heading@),
        );
    }
}

proof fn lemma_slots_in_order(privates: Seq<(Name, HeadingId)>, used: Seq<Name>, n: nat)
    requires
        in_name_order(privates),
        n <= privates.len(),
    ensures
        in_name_order(used_slots(privates, used, n)),
        forall|i: int|
            0 <= i < used_slots(privates, used, n).len() ==> exists|k: int|
                0 <= k < n && privates[k] == #[trigger] used_slots(privates, used, n)[i],
    decreases n,
{
    if n > 0 {
        lemma_slots_in_order(privates, used, (n - 1) as nat);
        let front = used_slots(privates, used, (n - 1) as nat);
        let out = used_slots(privates, used, n);
        assert forall|i: int| 0 <= i < out.len() implies exists|k: int|
            0 <= k < n && privates[k] == #[trigger] out[i] by {
            if i < front.len() {
                assert(out[i] == front[i]);
                let k = choose|k: int| 0 <= k < n - 1 && privates[k] == front[i];
                assert(privates[k] == out[i]);
            } else {
                assert(privates[n - 1] == out[i]);
            }
        }
        assert forall|i: int, j: int| 0 <= i < j < out.len() implies !before(
            (#[trigger] out[j]).0,
            (#[trigger] out[i]).0,
        ) by {
            assert(out[i] == front[i]);
            if j < front.len() {
                assert(out[j] == front[j]);
            } else {
                let k = choose|k: int| 0 <= k < n - 1 && privates[k] == front[i];
                assert(!before(privates[n - 1].0, privates[k].0));
            }
        }
    }
}

/// The slots of a module's private relvars stand in the order of their names.
pub proof fn law_slots_are_in_name_order(
    program: CheckedProgram,
    plan: Option<&Plan>,
    answers: Seq<Option<QueryView>>,
    collect: bool,
)
    ensures
        outcome(program, plan, answers, collect) matches LoweredView::Done {
            module: Some(m),
            ..
        } ==> in_name_order(m.private_relvar_slots),
{
    let st = program_lowered(program, plan, answers);
    let privates = private_relvars(program.relvars@, program.relvars@.len());
    lemma_env_of_plan(program, plan, answers);
    lemma_private_relvars(program.relvars@, program.relvars@.len());
    let known = st.env.privates;
    assert forall|i: int, j: int| 0 <= i < j < known.len() implies !before(
        (#[trigger] known[j]).0,
        (#[trigger] known[i]).0,
    ) by {
        assert(!before(privates[j].0, privates[i].0));
    }
    lemma_slots_in_order(known, st.used_private, known.len());
}

/// Whether statements of one text have one key.
pub open spec fn keys_by_text(answers: Seq<Option<QueryView>>) -> bool {
    forall|i: int, j: int|
        0 <= i < answers.len() && 0 <= j < answers.len() ==> (match (
            #[trigger] answers[i],
            #[trigger] answers[j],
        ) {
            (Some(p), Some(q)) => p.text == q.text ==> p.plan_key == q.plan_key,
            _ => true,
        })
}

/// The plans of a module are statements that were supplied, each registered
/// once.
pub proof fn law_statements_are_registered_once(
    program: CheckedProgram,
    plan: Option<&Plan>,
    answers: Seq<Option<QueryView>>,
    collect: bool,
)
    requires
        keys_by_text(answers),
    ensures
        outcome(program, plan, answers, collect) matches LoweredView::Done {
            module: Some(m),
            ..
        } ==> {
            &&& forall|i: int|
                0 <= i < m.plans.len() ==> exists|j: int|
                    0 <= j < answers.len() && (#[trigger] answers[j] matches Some(q) && q.text == (
                    #[trigger] m.plans[i]).sql)
            &&& forall|i: int, j: int|
                0 <= i < j < m.plans.len() ==> (#[trigger] m.plans[i]).sql != (
                #[trigger] m.plans[j]).sql
        },
{
    let st = program_lowered(program, plan, answers);
    lemma_program(program, plan, answers);
    lemma_answers_stay(program, plan, answers);
    if let LoweredView::Done { module: Some(m), .. } = outcome(program, plan, answers, collect) {
        reveal(sound);
        let keys = st.plan_keys;
        assert forall|i: int| 0 <= i < m.plans.len() implies exists|j: int|
            0 <= j < answers.len() && (#[trigger] answers[j] matches Some(q) && q.text == (
            #[trigger] m.plans[i]).sql) by {
            assert(is_answer(answers, keys[i], m.plans[i].sql));
        }
        assert forall|i: int, j: int| 0 <= i < j < m.plans.len() implies (
        #[trigger] m.plans[i]).sql != (#[trigger] m.plans[j]).sql by {
            assert(is_answer(answers, keys[i], m.plans[i].sql));
            assert(is_answer(answers, keys[j], m.plans[j].sql));
            assert(keys[i] != keys[j]);
        }
    }
}

/// Lowering asks for a statement only when it has used all that were supplied.
pub proof fn law_answers_are_used_before_asking(
    program: CheckedProgram,
    plan: Option<&Plan>,
    answers: Seq<Option<QueryView>>,
    collect: bool,
)
    ensures
        outcome(program, plan, answers, collect) matches LoweredView::Stopped(StopView::Ask(_))
            ==> program_lowered(program, plan, answers).asked >= answers.len(),
{
    lemma_program(program, plan, answers);
    reveal(sound);
    lemma_answers_stay(program, plan, answers);
}

/// The answers stay what they were.
proof fn lemma_answers_stay(
    program: CheckedProgram,
    plan: Option<&Plan>,
    answers: Seq<Option<QueryView>>,
)
    ensures
        program_lowered(program, plan, answers).env.answers == answers,
{
    let first = initial_state(plan_db_name(plan), plan is Some, plan_pushes(plan), answers);
    let st1 = match plan {
        Some(p) => publics_known(first, p.resolved@, p.resolved@.len()),
        None => first,
    };
    if let Some(p) = plan {
        lemma_publics_keep_answers(first, p.resolved@, p.resolved@.len());
        lemma_publics_known(first, p.resolved@, p.resolved@.len());
        lemma_opers_later(first, p.resolved@, p.resolved@.len());
    }
    let privates = private_relvars(program.relvars@, program.relvars@.len());
    let st2 = privates_known(st1, privates, privates.len());
    lemma_privates_keep_answers(st1, privates, privates.len());
    lemma_privates_known(st1, privates, privates.len());
    lemma_opers_last(st1, privates, privates.len());
    let items = program.items@;
    let st3 = opers_known(st2, items, items.len());
    lemma_opers_keep_answers(st2, items, items.len());
    lemma_opers_known(st2, items, items.len());
    lemma_blank(st3);
    lemma_opers_there(st2, items, items.len());
    lemma_items_lowered(st2, st3, items, items.len());
    reveal(grows);
}

proof fn lemma_publics_keep_answers(st: State, resolved: Seq<ResolvedRelvar>, n: nat)
    ensures
        publics_known(st, resolved, n).env.answers == st.env.answers,
    decreases n,
{
    if n > 0 {
        lemma_publics_keep_answers(st, resolved, (n - 1) as nat);
        reveal(State::intern);
        reveal(State::halted);
        reveal(State::add_public);
    }
}

proof fn lemma_privates_keep_answers(st: State, privates: Seq<(Name, HeadingView)>, n: nat)
    ensures
        privates_known(st, privates, n).env.answers == st.env.answers,
    decreases n,
{
    if n > 0 {
        lemma_privates_keep_answers(st, privates, (n - 1) as nat);
        reveal(State::intern);
        reveal(State::halted);
        reveal(State::add_private);
    }
}

proof fn lemma_opers_keep_answers(st: State, items: Seq<Item>, n: nat)
    ensures
        opers_known(st, items, n).env.answers == st.env.answers,
    decreases n,
{
    if n > 0 {
        lemma_opers_keep_answers(st, items, (n - 1) as nat);
        reveal(State::add_oper);
        reveal(State::halted);
    }
}

/// Explaining differs from lowering only in the pushed expressions, which are
/// kept; lowering keeps none.
pub proof fn law_explaining_only_keeps_expressions(
    program: CheckedProgram,
    plan: Option<&Plan>,
    answers: Seq<Option<QueryView>>,
)
    ensures
        match (outcome(program, plan, answers, true), outcome(program, plan, answers, false)) {
            (
                LoweredView::Done { module, diagnostics, .. },
                LoweredView::Done { module: m, diagnostics: d, relir },
            ) => module == m && diagnostics == d && relir.len() == 0,
            (LoweredView::Stopped(why), LoweredView::Stopped(w)) => why == w,
            _ => false,
        },
{
}

proof fn lemma_queried_spliced(
    blocks: Seq<BlockView>,
    callee: Name,
    offset: nat,
    added: Seq<InstView>,
    plans: Seq<PlanView>,
)
    requires
        only_set_up(added),
        offset <= 1,
    ensures
        queried_over(spliced(blocks, callee, offset, added), plans) == queried_over(blocks, plans),
{
    lemma_calling_block(blocks, callee);
    let i = calling_block(blocks, callee);
    if i < blocks.len() {
        let block = blocks[i as int];
        let at = call_index(block.insts, callee) + offset;
        let (head, tail) = (block.insts.take(at as int), block.insts.skip(at as int));
        let insts = head + added + tail;
        lemma_queried_concat(head + added, tail, plans);
        lemma_queried_concat(head, added, plans);
        lemma_queried_concat(head, tail, plans);
        lemma_none_queried(added, plans);
        assert(head + tail =~= block.insts);
        assert(queried_in(insts, plans) =~= queried_in(block.insts, plans));
        lemma_queried_update(blocks, i as int, BlockView { insts, ..block }, plans);
    }
}

/// The list of pushed expressions has one entry for each query of the module: as
/// many as there are query instructions, and of the statements that these run.
/// The entries are in the order in which their statements were asked for, and each
/// expression is one that the database is offered.
pub proof fn law_each_query_is_explained(
    program: CheckedProgram,
    plan: Option<&Plan>,
    answers: Seq<Option<QueryView>>,
)
    ensures
        outcome(program, plan, answers, true) matches LoweredView::Done { module, relir, .. } ==> {
            &&& exists|places: Seq<int>| placed(relir, answers, answers.len(), places)
            &&& module matches Some(m) ==> {
                let queries = queried_by(m.functions, m.plans);
                &&& queries.len() == relir.len()
                &&& texts_by_key(answers) ==> queries == entry_texts(relir)
            }
        },
{
    let st = program_lowered(program, plan, answers);
    lemma_program(program, plan, answers);
    lemma_answers_stay(program, plan, answers);
    match outcome(program, plan, answers, true) {
        LoweredView::Done { module, relir, .. } => {
            assert(in_asking_order(relir, answers, answers.len())) by {
                lemma_order_of_none(answers, answers.len());
                if !any_error(diagnostics_view(program.diagnostics@)) {
                    reveal(sound);
                    lemma_order_stays(relir, answers, st.asked, answers.len());
                }
            }
            reveal(in_asking_order);
            if let Some(m) = module {
                reveal(sound);
                lemma_prologue(st, bounds(st));
                lemma_function_index(st.functions, "main"@);
                let main = function_index(st.functions, "main"@) as int;
                if main < st.functions.len() {
                    let blocks = st.functions[main].blocks;
                    let (first, last) = (prologue(st), epilogue(st));
                    let middle = if first.len() == 0 {
                        blocks
                    } else {
                        spliced(blocks, "coddl_runtime_init"@, 1, first)
                    };
                    lemma_queried_spliced(blocks, "coddl_runtime_init"@, 1, first, st.plans);
                    lemma_queried_spliced(middle, "coddl_runtime_shutdown"@, 0, last, st.plans);
                    lemma_queried_replaced(st.functions, main, m.functions[main], st.plans);
                }
            }
        },
        _ => {},
    }
}

/// A program has a module exactly when it and its lowering are without errors.
pub proof fn law_module_unless_errors(
    program: CheckedProgram,
    plan: Option<&Plan>,
    answers: Seq<Option<QueryView>>,
    collect: bool,
)
    ensures
        outcome(program, plan, answers, collect) matches LoweredView::Done {
            module,
            diagnostics,
            ..
        } ==> (module is Some <==> !any_error(diagnostics)),
        any_error(diagnostics_view(program.diagnostics@)) ==> (outcome(
            program,
            plan,
            answers,
            collect,
        ) matches LoweredView::Done { module: None, .. }),
{
}

} // verus!
