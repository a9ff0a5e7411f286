//! Provisioning: what a database has to hold so that it is in the state its
//! catalog declares.
//!
//! A catalog is folded into tables with seed rows before the database is
//! touched; whatever stands in the way becomes a diagnostic. [`provision_catalog`]
//! takes every decision up to the one action that is left, to reconcile the
//! database, and [`finish`] turns what came of it into the outcome.

use crate::diag::{
    any_error, diagnostics_view, error_view, has_errors, Diagnostic, DiagnosticView,
};
use crate::ir::maybe_text;
use crate::lower::program::BackendKind;
use crate::provision::failure::{failure, push_provision_error, ProvisionError};
use crate::provision::rows::{build_rows, rows_view, seeded, RowView, SeedRow};
use crate::provision::schema::{
    build_schema, columns_first, nowhere, plain, report, schema_complaints, schema_of,
    CatalogRelvar, Schema, SchemaView,
};
use crate::text::{quoted, quoted_text, upper, upper_text, Name};
use vstd::prelude::*;

pub mod cell_laws;
pub mod failure;
pub mod laws;
pub mod rows;
pub mod schema;

verus! {

/// The base relvars of a catalog and where they are stored.
#[derive(Debug)]
pub struct CatalogPlan {
    pub database_name: String,
    pub backend_kind: BackendKind,
    pub relvars: Vec<CatalogRelvar>,
    /// The database file that is used unless the environment names another.
    pub db_file_default: Option<String>,
}

/// A catalog as far as it could be resolved.
#[derive(Debug)]
pub struct ResolvedCatalog {
    pub plan: Option<CatalogPlan>,
    pub diagnostics: Vec<Diagnostic>,
}

/// A table with the rows it is to hold.
#[derive(Debug)]
pub struct ProvisionTable {
    pub schema: Schema,
    pub rows: Vec<SeedRow>,
}

/// What happened to one table.
#[derive(Debug, PartialEq, Eq)]
pub struct TableReport {
    pub table: String,
    pub created: bool,
    pub rows_inserted: usize,
}

/// What happened to the tables of a database.
#[derive(Debug, PartialEq, Eq)]
pub struct Report {
    pub tables: Vec<TableReport>,
}

/// What came of provisioning: a report when the database was reconciled, and
/// every diagnostic.
#[derive(Debug)]
pub struct ProvisionOutcome {
    pub report: Option<Report>,
    pub diagnostics: Vec<Diagnostic>,
}

/// What is left to do for a catalog.
#[derive(Debug)]
pub enum Step {
    /// Nothing: the database stays as it is.
    Finished(ProvisionOutcome),
    /// Bring the database in that file to these tables, in one transaction.
    Reconcile { path: String, tables: Vec<ProvisionTable>, diagnostics: Vec<Diagnostic> },
}

/// What a [`ProvisionTable`] stands for.
pub struct TableView {
    pub schema: SchemaView,
    pub rows: Seq<RowView>,
}

/// What a [`Step`] stands for.
pub enum StepView {
    Finished(Seq<DiagnosticView>),
    Reconcile { path: Name, tables: Seq<TableView>, diagnostics: Seq<DiagnosticView> },
}

impl ProvisionTable {
    pub open spec fn view(&self) -> TableView {
        TableView { schema: self.schema@, rows: rows_view(self.rows@) }
    }
}

/// What a list of tables stands for.
pub open spec fn tables_view(s: Seq<ProvisionTable>) -> Seq<TableView> {
    Seq::new(s.len(), |i: int| s[i]@)
}

impl Step {
    pub open spec fn view(&self) -> StepView {
        match self {
            Step::Finished(o) => StepView::Finished(diagnostics_view(o.diagnostics@)),
            Step::Reconcile { path, tables, diagnostics } => StepView::Reconcile {
                path: path@,
                tables: tables_view(tables@),
                diagnostics: diagnostics_view(diagnostics@),
            },
        }
    }
}

/// The table for a relvar, or what stands in its way.
pub open spec fn table_of(r: CatalogRelvar) -> Result<TableView, Seq<DiagnosticView>> {
    match schema_of(r) {
        None => Err(schema_complaints(r)),
        Some(schema) => match seeded(r, schema) {
            Ok(rows) => Ok(TableView { schema, rows }),
            Err(complaints) => Err(complaints),
        },
    }
}

/// The tables for the first `n` relvars, and what stands in the way of others.
pub open spec fn tables_first(relvars: Seq<CatalogRelvar>, n: nat) -> (
    Seq<TableView>,
    Seq<DiagnosticView>,
)
    decreases n,
{
    if n == 0 {
        (Seq::empty(), Seq::empty())
    } else {
        let (tables, complaints) = tables_first(relvars, (n - 1) as nat);
        match table_of(relvars[n - 1]) {
            Ok(t) => (tables.push(t), complaints),
            Err(more) => (tables, complaints + more),
        }
    }
}

/// The environment variable that names the database's file.
pub open spec fn env_key(database: Name) -> Seq<char> {
    "CODDL_"@ + upper(database) + "_FILE"@
}

/// The environment variable that names the database's file.
pub fn file_variable(database: &str) -> (r: String)
    ensures
        r@ == env_key(database@),
{
    let mut s = "CODDL_".to_owned();
    s.append(upper_text(database).as_str());
    s.append("_FILE");
    s
}

/// The kind of a database as a message writes it.
pub open spec fn backend_word(b: BackendKind) -> Seq<char> {
    match b {
        BackendKind::Sqlite => "Sqlite"@,
        BackendKind::Other(name) => "Other("@ + quoted(name@) + ")"@,
        BackendKind::Unknown => "Unknown"@,
    }
}

fn backend_text(b: &BackendKind) -> (r: String)
    ensures
        r@ == backend_word(*b),
{
    match b {
        BackendKind::Sqlite => "Sqlite".to_owned(),
        BackendKind::Other(name) => {
            let mut s = "Other(".to_owned();
            s.append(quoted_text(name.as_str()).as_str());
            s.append(")");
            s
        },
        BackendKind::Unknown => "Unknown".to_owned(),
    }
}

/// The complaint about a database of another kind.
pub open spec fn wrong_backend(database: Name, backend: BackendKind) -> DiagnosticView {
    error_view(
        nowhere(),
        "PV0007"@,
        "database `"@ + database + "` uses backend "@ + backend_word(backend)
            + "; `coddl provision` supports SQLite only in v1"@,
    )
}

/// The complaint about a database without a file.
pub open spec fn no_file(database: Name) -> DiagnosticView {
    error_view(
        nowhere(),
        "PV0006"@,
        "cannot resolve a database file for `"@ + database + "`: neither `"@ + env_key(database)
            + "` is set nor does the `.cdstore` declare a `file:` default"@,
    )
}

/// What is left to do for a catalog, when the environment names `file`.
pub open spec fn stepped(catalog: ResolvedCatalog, file: Option<Name>) -> StepView {
    let said = diagnostics_view(catalog.diagnostics@);
    if any_error(said) {
        StepView::Finished(said)
    } else {
        match catalog.plan {
            None => StepView::Finished(said),
            Some(plan) => if plan.backend_kind != BackendKind::Sqlite {
                StepView::Finished(
                    said.push(wrong_backend(plan.database_name@, plan.backend_kind)),
                )
            } else {
                let (tables, complaints) = tables_first(plan.relvars@, plan.relvars@.len());
                let said = said + complaints;
                let path = if file is Some {
                    file
                } else {
                    maybe_text(plan.db_file_default)
                };
                if tables.len() < plan.relvars@.len() {
                    StepView::Finished(said)
                } else {
                    match path {
                        None => StepView::Finished(said.push(no_file(plan.database_name@))),
                        Some(path) => StepView::Reconcile { path, tables, diagnostics: said },
                    }
                }
            },
        }
    }
}

/// A schema has at most one column for each bound attribute.
pub(crate) proof fn lemma_columns_len(r: CatalogRelvar, n: nat)
    ensures
        columns_first(r, n).0.len() + columns_first(r, n).1.len() == n,
    decreases n,
{
    if n > 0 {
        lemma_columns_len(r, (n - 1) as nat);
    }
}

/// The table for a relvar; what stands in its way is added to the diagnostics.
fn fold_relvar(relvar: &CatalogRelvar, diagnostics: &mut Vec<Diagnostic>) -> (r: Option<
    ProvisionTable,
>)
    ensures
        match table_of(*relvar) {
            Ok(t) => {
                &&& r is Some
                &&& r->0@ == t
                &&& diagnostics_view(final(diagnostics)@) == diagnostics_view(old(diagnostics)@)
            },
            Err(complaints) => {
                &&& r is None
                &&& diagnostics_view(final(diagnostics)@) == diagnostics_view(old(diagnostics)@)
                    + complaints
            },
        },
{
    let ghost was = diagnostics_view(diagnostics@);
    let schema = match build_schema(relvar, diagnostics) {
        Some(schema) => schema,
        None => {
            return None;
        },
    };
    proof {
        lemma_columns_len(*relvar, relvar.columns@.len());
        assert(schema@.columns.len() == schema.columns@.len());
        assert(was + schema_complaints(*relvar) =~= was);
    }
    match build_rows(relvar, &schema, diagnostics) {
        Some(rows) => Some(ProvisionTable { schema, rows }),
        None => None,
    }
}

/// The tables for the relvars; what stands in the way is added to the
/// diagnostics.
fn fold_relvars(relvars: &Vec<CatalogRelvar>, diagnostics: &mut Vec<Diagnostic>) -> (r: Vec<
    ProvisionTable,
>)
    ensures
        tables_view(r@) == tables_first(relvars@, relvars@.len()).0,
        diagnostics_view(final(diagnostics)@) == diagnostics_view(old(diagnostics)@)
            + tables_first(relvars@, relvars@.len()).1,
{
    let ghost was = diagnostics_view(diagnostics@);
    let mut tables: Vec<ProvisionTable> = Vec::new();
    let mut i: usize = 0;
    assert(tables_view(tables@) =~= Seq::<TableView>::empty());
    assert(was =~= was + Seq::<DiagnosticView>::empty());
    while i < relvars.len()
        invariant
            i <= relvars.len(),
            tables_view(tables@) == tables_first(relvars@, i as nat).0,
            diagnostics_view(diagnostics@) == was + tables_first(relvars@, i as nat).1,
        decreases relvars.len() - i,
    {
        let ghost before = tables_view(tables@);
        let ghost said = tables_first(relvars@, i as nat).1;
        match fold_relvar(&relvars[i], diagnostics) {
            Some(t) => {
                let ghost seen = t@;
                tables.push(t);
                assert(tables_view(tables@) =~= before.push(seen));
            },
            None => {
                proof {
                    let more = table_of(relvars@[i as int])->Err_0;
                    assert((was + said) + more =~= was + (said + more));
                }
            },
        }
        i += 1;
    }
    tables
}

fn stop(diagnostics: Vec<Diagnostic>) -> (r: Step)
    ensures
        r@ == StepView::Finished(diagnostics_view(diagnostics@)),
        r matches Step::Finished(o) && o.report is None,
{
    Step::Finished(ProvisionOutcome { report: None, diagnostics })
}

/// What is left to do for a catalog. `file` is what the environment has under
/// the name that [`file_variable`] gives.
pub fn provision_catalog(catalog: ResolvedCatalog, file: Option<String>) -> (r: Step)
    ensures
        r@ == stepped(catalog, maybe_text(file)),
        r matches Step::Finished(o) ==> o.report is None,
{
    let ResolvedCatalog { plan, diagnostics } = catalog;
    if has_errors(&diagnostics) {
        return stop(diagnostics);
    }
    let mut diagnostics = diagnostics;
    let plan = match plan {
        Some(plan) => plan,
        None => {
            return stop(diagnostics);
        },
    };
    let supported = match &plan.backend_kind {
        BackendKind::Sqlite => true,
        _ => false,
    };
    if !supported {
        let mut s = "database `".to_owned();
        s.append(plan.database_name.as_str());
        s.append("` uses backend ");
        s.append(backend_text(&plan.backend_kind).as_str());
        s.append("; `coddl provision` supports SQLite only in v1");
        report(&mut diagnostics, plain("PV0007", s));
        return stop(diagnostics);
    }
    let tables = fold_relvars(&plan.relvars, &mut diagnostics);
    assert(tables_view(tables@).len() == tables@.len());
    if tables.len() < plan.relvars.len() {
        return stop(diagnostics);
    }
    let path = match file {
        Some(path) => Some(path),
        None => plan.db_file_default,
    };
    match path {
        Some(path) => Step::Reconcile { path, tables, diagnostics },
        None => {
            let mut s = "cannot resolve a database file for `".to_owned();
            s.append(plan.database_name.as_str());
            s.append("`: neither `");
            s.append(file_variable(plan.database_name.as_str()).as_str());
            s.append("` is set nor does the `.cdstore` declare a `file:` default");
            report(&mut diagnostics, plain("PV0006", s));
            stop(diagnostics)
        },
    }
}

/// The outcome once reconciling the database ended that way.
pub fn finish(diagnostics: Vec<Diagnostic>, result: Result<Report, ProvisionError>) -> (r:
    ProvisionOutcome)
    ensures
        match result {
            Ok(report) => r.report == Some(report) && r.diagnostics == diagnostics,
            Err(e) => {
                &&& r.report is None
                &&& diagnostics_view(r.diagnostics@) == diagnostics_view(diagnostics@).push(
                    failure(e),
                )
            },
        },
{
    match result {
        Ok(report) => ProvisionOutcome { report: Some(report), diagnostics },
        Err(e) => {
            let mut diagnostics = diagnostics;
            push_provision_error(&mut diagnostics, e);
            ProvisionOutcome { report: None, diagnostics }
        },
    }
}

} // verus!
