//! What lowering makes of a program.

use crate::ast::{Item, OperDecl, RelvarInfo, RelvarKind, TypeRef};
use crate::cut::QueryView;
use crate::diag::{any_error, diagnostics_view, Diagnostic, DiagnosticView};
use crate::ir::{
    maybe_text, BlockView, FunctionView, HeadingId, InstView, ModuleView, PlanView, ProcTypeView,
    RelvarView, TerminatorView,
};
use crate::lower::kinds::written_type;
use crate::lower::lowering::block_lowered;
use crate::lower::state::{
    initial_state, last_public, State, StopView, WritePolicy,
};
use crate::rel_expr::RelView;
use crate::text::{before, name_lists_of, name_pairs_of, Name};
use crate::types::{Heading, HeadingView};
use vstd::prelude::*;

verus! {

/// What kind of database a plan is for.
#[derive(Debug, PartialEq, Eq)]
pub enum BackendKind {
    Sqlite,
    Other(String),
    Unknown,
}

/// A public relvar with the table that holds it.
#[derive(Debug)]
pub struct ResolvedRelvar {
    pub app_name: String,
    pub heading: Heading,
    pub table_name: String,
    /// The `(attribute, column)` pairs.
    pub columns: Vec<(String, String)>,
    pub keys: Vec<Vec<String>>,
    pub write_policy: WritePolicy,
}

/// Where a program's public relvars are stored.
#[derive(Debug)]
pub struct Plan {
    pub database_name: Option<String>,
    pub backend_kind: BackendKind,
    pub resolved: Vec<ResolvedRelvar>,
    /// The database file that is used unless the environment names another.
    pub db_file_default: Option<String>,
}

/// A program as the type checker leaves it.
#[derive(Debug)]
pub struct CheckedProgram {
    pub items: Vec<Item>,
    pub diagnostics: Vec<Diagnostic>,
    pub relvars: Vec<RelvarInfo>,
}

/// The parameters of the first `n` declared ones; none when a type has no
/// machine type.
pub open spec fn declared_params(params: Seq<(String, Option<TypeRef>)>, n: nat) -> Option<
    Seq<(Name, ProcTypeView)>,
>
    decreases n,
{
    if n == 0 {
        Some(Seq::empty())
    } else {
        match (declared_params(params, (n - 1) as nat), declared_type(params[n - 1].1)) {
            (Some(ps), Some(ty)) => Some(ps.push((params[n - 1].0@, ty))),
            _ => None,
        }
    }
}

/// The machine type of a written type; `Unit` when none is written.
pub open spec fn declared_type(t: Option<TypeRef>) -> Option<ProcTypeView> {
    match t {
        Some(t) => written_type(t),
        None => Some(ProcTypeView::Unit),
    }
}

/// An operator's parameters and return type.
pub open spec fn signature(o: OperDecl) -> Option<(Seq<(Name, ProcTypeView)>, ProcTypeView)> {
    match (declared_params(o.params@, o.params@.len()), declared_type(o.return_type)) {
        (Some(params), Some(ty)) => Some((params, ty)),
        _ => None,
    }
}

/// The operators of the first `n` items made known.
pub open spec fn opers_known(st: State, items: Seq<Item>, n: nat) -> State
    decreases n,
{
    if n == 0 {
        st
    } else {
        let before = opers_known(st, items, (n - 1) as nat);
        match items[n - 1] {
            Item::Oper(o) => match signature(o) {
                Some(sig) => before.add_oper(o.name@, sig),
                None => before.halted(StopView::NotLowered),
            },
            _ => before,
        }
    }
}

/// The first `n` parameters bound.
pub open spec fn params_bound(st: State, params: Seq<(Name, ProcTypeView)>, n: nat) -> State
    decreases n,
{
    if n == 0 {
        st
    } else {
        let before = params_bound(st, params, (n - 1) as nat);
        let (after, v) = before.take_param(params[n - 1].1);
        after.bind(params[n - 1].0, v, params[n - 1].1)
    }
}

/// An operator with its signature.
#[verifier::opaque]
pub open spec fn oper_lowered(
    st: State,
    o: OperDecl,
    params: Seq<(Name, ProcTypeView)>,
    return_type: ProcTypeView,
) -> State {
    let is_main = o.name@ == "main"@;
    let st = params_bound(st.reset_function(), params, params.len()).begin_body();
    let st = if is_main {
        st.call_runtime("coddl_runtime_init"@)
    } else {
        st
    };
    let (st, value) = match o.body {
        Some(b) => {
            let (st, v) = block_lowered(st, b);
            (st, Some(v))
        },
        None => (st, None),
    };
    let returned = if is_main || return_type is Unit {
        None
    } else {
        value
    };
    let st = match returned {
        Some(v) => st.retain_escaping(v),
        None => st,
    };
    let st = st.release_scope().release_deferred();
    let st = if is_main {
        st.call_runtime("coddl_runtime_shutdown"@)
    } else {
        st
    };
    st.finish_block(TerminatorView::Return(returned)).add_function(o.name@, params, return_type)
}

/// The operators of the first `n` items.
pub open spec fn items_lowered(st: State, items: Seq<Item>, n: nat) -> State
    decreases n,
{
    if n == 0 {
        st
    } else {
        let before = items_lowered(st, items, (n - 1) as nat);
        match items[n - 1] {
            Item::Oper(o) => match signature(o) {
                Some(sig) => oper_lowered(before, o, sig.0, sig.1),
                None => before.halted(StopView::NotLowered),
            },
            _ => before,
        }
    }
}

/// The program's name: that of the last item that gives one.
pub open spec fn program_name(items: Seq<Item>, n: nat) -> Name
    decreases n,
{
    if n == 0 {
        Seq::empty()
    } else {
        match items[n - 1] {
            Item::Program { name } => name@,
            _ => program_name(items, (n - 1) as nat),
        }
    }
}

/// The first `n` public relvars of a plan made known.
pub open spec fn publics_known(st: State, resolved: Seq<ResolvedRelvar>, n: nat) -> State
    decreases n,
{
    if n == 0 {
        st
    } else {
        let before = publics_known(st, resolved, (n - 1) as nat);
        let r = resolved[n - 1];
        let (after, heading_id) = before.intern(r.heading@);
        after.add_public(
            RelvarView {
                name: r.app_name@,
                heading_id,
                table_name: r.table_name@,
                columns: name_pairs_of(r.columns@),
                keys: name_lists_of(r.keys@),
            },
            r.write_policy,
        )
    }
}

/// `s` with `x` put behind every entry that does not come after it.
pub open spec fn insert_relvar(s: Seq<(Name, HeadingView)>, x: (Name, HeadingView)) -> Seq<
    (Name, HeadingView),
>
    decreases s.len(),
{
    if s.len() > 0 && before(x.0, s.last().0) {
        insert_relvar(s.drop_last(), x).push(s.last())
    } else {
        s.push(x)
    }
}

/// The private ones of the first `n` relvars, in name order.
pub open spec fn private_relvars(relvars: Seq<RelvarInfo>, n: nat) -> Seq<(Name, HeadingView)>
    decreases n,
{
    if n == 0 {
        Seq::empty()
    } else if relvars[n - 1].kind == RelvarKind::Private {
        insert_relvar(
            private_relvars(relvars, (n - 1) as nat),
            (relvars[n - 1].name@, relvars[n - 1].heading@),
        )
    } else {
        private_relvars(relvars, (n - 1) as nat)
    }
}

/// The first `n` private relvars made known.
pub open spec fn privates_known(st: State, privates: Seq<(Name, HeadingView)>, n: nat) -> State
    decreases n,
{
    if n == 0 {
        st
    } else {
        let (after, id) = privates_known(st, privates, (n - 1) as nat).intern(privates[n - 1].1);
        after.add_private(privates[n - 1].0, id)
    }
}

/// Whether the instruction is a call of that function.
pub open spec fn is_call(inst: InstView, callee: Name) -> bool {
    inst matches InstView::Call { callee: c, .. } && c == callee
}

/// The place of the first call of a function; the length when there is none.
pub open spec fn call_index(insts: Seq<InstView>, callee: Name) -> nat
    decreases insts.len(),
{
    if insts.len() == 0 {
        0
    } else if is_call(insts[0], callee) {
        0
    } else {
        1 + call_index(insts.drop_first(), callee)
    }
}

/// The first block that calls a function; the length when none does.
pub open spec fn calling_block(blocks: Seq<BlockView>, callee: Name) -> nat
    decreases blocks.len(),
{
    if blocks.len() == 0 {
        0
    } else if call_index(blocks[0].insts, callee) < blocks[0].insts.len() {
        0
    } else {
        1 + calling_block(blocks.drop_first(), callee)
    }
}

/// The blocks with instructions put in `offset` places behind the first call of
/// a function.
pub open spec fn spliced(
    blocks: Seq<BlockView>,
    callee: Name,
    offset: nat,
    added: Seq<InstView>,
) -> Seq<BlockView> {
    let b = calling_block(blocks, callee);
    if b < blocks.len() {
        let block = blocks[b as int];
        let at = call_index(block.insts, callee) + offset;
        blocks.update(
            b as int,
            BlockView {
                insts: block.insts.take(at as int) + added + block.insts.skip(at as int),
                ..block
            },
        )
    } else {
        blocks
    }
}

/// The registrations of the first `n` plans.
pub open spec fn plan_registrations(plans: Seq<PlanView>) -> Seq<InstView> {
    if plans.len() == 0 {
        Seq::empty()
    } else {
        seq![InstView::RegisterDatabase] + Seq::new(
            plans.len(),
            |i: int| InstView::RegisterPlan { plan_id: plans[i].plan_id },
        )
    }
}

/// The public relvar that a name stands for.
pub open spec fn current_public(
    publics: Seq<(RelvarView, WritePolicy)>,
    name: Name,
) -> RelvarView {
    match last_public(publics, name) {
        Some(p) => p.0,
        None => arbitrary(),
    }
}

/// The slots of the first `n` public relvars that are read in-process, filled.
pub open spec fn public_inits(
    publics: Seq<(RelvarView, WritePolicy)>,
    legacy: Seq<Name>,
    n: nat,
) -> Seq<InstView>
    decreases n,
{
    if n == 0 {
        Seq::empty()
    } else {
        let before = public_inits(publics, legacy, (n - 1) as nat);
        let name = publics[n - 1].0.name;
        if legacy.contains(name) {
            before.push(
                InstView::RelvarSlotInit {
                    name,
                    heading_id: current_public(publics, name).heading_id,
                },
            )
        } else {
            before
        }
    }
}

/// The slots of the first `n` public relvars that are read in-process, let go.
pub open spec fn public_releases(
    publics: Seq<(RelvarView, WritePolicy)>,
    legacy: Seq<Name>,
    n: nat,
) -> Seq<InstView>
    decreases n,
{
    if n == 0 {
        Seq::empty()
    } else {
        let before = public_releases(publics, legacy, (n - 1) as nat);
        let name = publics[n - 1].0.name;
        if legacy.contains(name) {
            before.push(InstView::RelvarSlotRelease { name })
        } else {
            before
        }
    }
}

/// The first `n` private relvars that are used.
pub open spec fn used_slots(privates: Seq<(Name, HeadingId)>, used: Seq<Name>, n: nat) -> Seq<
    (Name, HeadingId),
>
    decreases n,
{
    if n == 0 {
        Seq::empty()
    } else if used.contains(privates[n - 1].0) {
        used_slots(privates, used, (n - 1) as nat).push(privates[n - 1])
    } else {
        used_slots(privates, used, (n - 1) as nat)
    }
}

/// The instructions that a program begins with: what it makes known to the
/// run-time library, and the slots that it fills.
pub open spec fn prologue(st: State) -> Seq<InstView> {
    let slots = used_slots(st.env.privates, st.used_private, st.env.privates.len());
    plan_registrations(st.plans) + public_inits(
        st.env.publics,
        st.legacy,
        st.env.publics.len(),
    ) + Seq::new(
        slots.len(),
        |i: int| InstView::PrivateRelvarSlotInit { name: slots[i].0, heading_id: slots[i].1 },
    )
}

/// The instructions that a program ends with: the slots that it lets go.
pub open spec fn epilogue(st: State) -> Seq<InstView> {
    let slots = used_slots(st.env.privates, st.used_private, st.env.privates.len());
    public_releases(st.env.publics, st.legacy, st.env.publics.len()) + Seq::new(
        slots.len(),
        |i: int| InstView::RelvarSlotRelease { name: slots[i].0 },
    )
}

/// The first function of that name; the length when there is none.
pub open spec fn function_index(functions: Seq<FunctionView>, name: Name) -> nat
    decreases functions.len(),
{
    if functions.len() == 0 {
        0
    } else if functions[0].name == name {
        0
    } else {
        1 + function_index(functions.drop_first(), name)
    }
}

/// `main` with its prologue behind the start of the run-time library and its
/// epilogue before the end of it.
pub open spec fn with_prologue(
    functions: Seq<FunctionView>,
    first: Seq<InstView>,
    last: Seq<InstView>,
) -> Seq<FunctionView> {
    let m = function_index(functions, "main"@);
    if m < functions.len() {
        let main = functions[m as int];
        let blocks = if first.len() == 0 {
            main.blocks
        } else {
            spliced(main.blocks, "coddl_runtime_init"@, 1, first)
        };
        let blocks = if last.len() == 0 {
            blocks
        } else {
            spliced(blocks, "coddl_runtime_shutdown"@, 0, last)
        };
        functions.update(m as int, FunctionView { blocks, ..main })
    } else {
        functions
    }
}

/// The module that the state holds.
pub open spec fn module_of(
    st: State,
    name: Name,
    db_name: Option<Name>,
    db_path: Option<Seq<char>>,
) -> ModuleView {
    let publics = st.env.publics;
    ModuleView {
        program_name: name,
        functions: with_prologue(st.functions, prologue(st), epilogue(st)),
        headings: st.headings,
        public_relvars: Seq::new(
            publics.len(),
            |i: int| current_public(publics, publics[i].0.name),
        ),
        db_path_default: db_path,
        db_name,
        plans: st.plans,
        private_relvar_slots: used_slots(
            st.env.privates,
            st.used_private,
            st.env.privates.len(),
        ),
    }
}

/// The database's name that a plan gives.
pub open spec fn plan_db_name(plan: Option<&Plan>) -> Option<Name> {
    match plan {
        Some(p) => maybe_text(p.database_name),
        None => None,
    }
}

/// The database file that a plan gives.
pub open spec fn plan_db_path(plan: Option<&Plan>) -> Option<Seq<char>> {
    match plan {
        Some(p) => maybe_text(p.db_file_default),
        None => None,
    }
}

/// Whether the plan's database evaluates relational expressions.
pub open spec fn plan_pushes(plan: Option<&Plan>) -> bool {
    plan matches Some(p) && p.backend_kind is Sqlite
}

/// The state after the whole program.
pub open spec fn program_lowered(
    program: CheckedProgram,
    plan: Option<&Plan>,
    answers: Seq<Option<QueryView>>,
) -> State {
    let st = initial_state(plan_db_name(plan), plan is Some, plan_pushes(plan), answers);
    let st = match plan {
        Some(p) => publics_known(st, p.resolved@, p.resolved@.len()),
        None => st,
    };
    let privates = private_relvars(program.relvars@, program.relvars@.len());
    let st = privates_known(st, privates, privates.len());
    let st = opers_known(st, program.items@, program.items@.len());
    items_lowered(st, program.items@, program.items@.len())
}

/// What lowering a program comes to.
pub enum LoweredView {
    /// It came to an end: the module, unless there was an error.
    Done {
        module: Option<ModuleView>,
        diagnostics: Seq<DiagnosticView>,
        relir: Seq<(RelView, Seq<char>)>,
    },
    /// It stopped on the way.
    Stopped(StopView),
}

/// What lowering a program comes to: nothing but the diagnostics for one with
/// errors; the module for one without. The pushed expressions are kept when
/// `collect` says so.
pub open spec fn outcome(
    program: CheckedProgram,
    plan: Option<&Plan>,
    answers: Seq<Option<QueryView>>,
    collect: bool,
) -> LoweredView {
    let found = diagnostics_view(program.diagnostics@);
    if any_error(found) {
        LoweredView::Done { module: None, diagnostics: found, relir: Seq::empty() }
    } else {
        let st = program_lowered(program, plan, answers);
        match st.stop {
            Some(why) => LoweredView::Stopped(why),
            None => {
                let all = found + st.diagnostics;
                LoweredView::Done {
                    module: if any_error(all) {
                        None
                    } else {
                        Some(
                            module_of(
                                st,
                                program_name(program.items@, program.items@.len()),
                                plan_db_name(plan),
                                plan_db_path(plan),
                            ),
                        )
                    },
                    diagnostics: all,
                    relir: if collect {
                        st.relir
                    } else {
                        Seq::empty()
                    },
                }
            },
        }
    }
}

} // verus!
