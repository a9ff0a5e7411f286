//! Lowering of a type-checked program to procedural code.
//!
//! Relational expressions over public relvars are left to the database where a
//! statement can be written for them; [`Lowered::Stopped`] asks for such a
//! statement, and lowering is then begun again with it among the answers.

pub mod actions;
pub mod algebra_laws;
pub mod assemble;
pub mod assigned;
pub mod branch_laws;
pub mod condition_laws;
pub mod emit;
pub mod kinds;
pub mod loop_laws;
pub mod lowerer;
pub mod lowering;
pub mod meaning;
pub mod overwrite_laws;
pub mod patterns;
pub mod program;
pub mod relational;
pub mod running;
pub mod scalar_laws;
pub mod state;
pub mod steps;
pub mod update_laws;
pub mod valid;
pub mod walk;
pub mod write_laws;

use crate::cut::SqlQuery;
use crate::diag::{diagnostics_view, has_errors, Diagnostic};
use crate::ir::{maybe_text, Module, ModuleView};
use crate::lower::assemble::{assemble, find_program_name};
use crate::lower::lowerer::{answers_view, relir_view, ExplainEntry, Lowerer};
use crate::lower::program::{
    outcome, program_lowered, BackendKind, CheckedProgram, LoweredView, Plan,
};
use crate::lower::state::Stop;
use vstd::prelude::*;

verus! {

/// What lowering a program gives: the module, unless there was an error, and
/// the pushed expressions when they were asked for.
#[derive(Debug)]
pub struct LowerOutput {
    pub module: Option<Module>,
    pub diagnostics: Vec<Diagnostic>,
    pub relir: Vec<ExplainEntry>,
}

/// What lowering a program comes to.
#[derive(Debug)]
pub enum Lowered {
    Done(LowerOutput),
    Stopped(Stop),
}

/// What an optional module stands for.
pub open spec fn maybe_module(m: Option<Module>) -> Option<ModuleView> {
    match m {
        Some(m) => Some(m@),
        None => None,
    }
}

impl Lowered {
    pub open spec fn view(&self) -> LoweredView {
        match self {
            Lowered::Done(out) => LoweredView::Done {
                module: maybe_module(out.module),
                diagnostics: diagnostics_view(out.diagnostics@),
                relir: relir_view(out.relir@),
            },
            Lowered::Stopped(why) => LoweredView::Stopped(why@),
        }
    }
}

/// Lowers a program without public relvars.
pub fn lower(program: CheckedProgram) -> (r: Lowered)
    ensures
        r@ == outcome(program, None, Seq::empty(), false),
{
    let answers: Vec<Option<SqlQuery>> = Vec::new();
    assert(answers_view(answers@) =~= Seq::empty());
    lower_with_plan(program, None, answers)
}

/// Lowers a program whose public relvars the plan places. The answers are the
/// statements that lowering asks for, in that order; `None` stands for one that
/// cannot be written. Without a plan there are no public relvars, no statements, and
/// no functions that begin or commit a transaction.
pub fn lower_with_plan(
    program: CheckedProgram,
    plan: Option<&Plan>,
    answers: Vec<Option<SqlQuery>>,
) -> (r: Lowered)
    ensures
        r@ == outcome(program, plan, answers_view(answers@), false),
{
    lower_impl::<false>(program, plan, answers)
}

/// Lowers a program as [`lower_with_plan`] does, and keeps each pushed
/// expression with its statement.
pub fn explain_with_plan(
    program: CheckedProgram,
    plan: Option<&Plan>,
    answers: Vec<Option<SqlQuery>>,
) -> (r: Lowered)
    ensures
        r@ == outcome(program, plan, answers_view(answers@), true),
{
    lower_impl::<true>(program, plan, answers)
}

fn copy_text(s: &Option<String>) -> (r: Option<String>)
    ensures
        maybe_text(r) == maybe_text(*s),
{
    match s {
        Some(s) => Some(s.clone()),
        None => None,
    }
}

fn lower_impl<const COLLECT: bool>(
    program: CheckedProgram,
    plan: Option<&Plan>,
    answers: Vec<Option<SqlQuery>>,
) -> (r: Lowered)
    ensures
        r@ == outcome(program, plan, answers_view(answers@), COLLECT),
{
    let ghost found = diagnostics_view(program.diagnostics@);
    if has_errors(&program.diagnostics) {
        let relir: Vec<ExplainEntry> = Vec::new();
        assert(relir_view(relir@) =~= Seq::empty());
        return Lowered::Done(
            LowerOutput { module: None, diagnostics: program.diagnostics, relir },
        );
    }
    let (db_name, db_path, pushes) = match plan {
        Some(p) => {
            let sqlite = match p.backend_kind {
                BackendKind::Sqlite => true,
                _ => false,
            };
            (copy_text(&p.database_name), copy_text(&p.db_file_default), sqlite)
        },
        None => (None, None, false),
    };
    let kept_name = copy_text(&db_name);
    let ghost answered = answers_view(answers@);
    let mut lowerer: Lowerer<COLLECT> = Lowerer::new(db_name, plan.is_some(), pushes, answers);
    if let Some(p) = plan {
        lowerer.absorb_plan(&p.resolved);
    }
    lowerer.absorb_private_relvars(&program.relvars);
    lowerer.absorb_opers(&program.items);
    lowerer.lower_items(&program.items);
    let ghost st = lowerer@;
    assert(st == program_lowered(program, plan, answered));
    let name = find_program_name(&program.items);
    let mut product = lowerer.into_product();
    let mut stop: Option<Stop> = None;
    std::mem::swap(&mut stop, &mut product.stop);
    if let Some(why) = stop {
        return Lowered::Stopped(why);
    }
    let mut diagnostics = program.diagnostics;
    let mut more: Vec<Diagnostic> = Vec::new();
    std::mem::swap(&mut more, &mut product.diagnostics);
    diagnostics.append(&mut more);
    assert(diagnostics_view(diagnostics@) =~= found + st.diagnostics);
    let mut relir: Vec<ExplainEntry> = Vec::new();
    if COLLECT {
        std::mem::swap(&mut relir, &mut product.relir);
    } else {
        assert(relir_view(relir@) =~= Seq::empty());
    }
    let module = if has_errors(&diagnostics) {
        None
    } else {
        Some(assemble(product, name, kept_name, db_path, Ghost(st)))
    };
    Lowered::Done(LowerOutput { module, diagnostics, relir })
}

} // verus!
