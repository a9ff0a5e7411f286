//! What reconciling a database reports: the tables it filled, or why it
//! failed.

use crate::diag::{diagnostics_view, error_view, Diagnostic, DiagnosticView};
use crate::provision::schema::{columns_view, nowhere, plain, report, Column, ColumnView};
use crate::text::{
    bool_text, bool_word, join_texts, joined, names_of, quoted, quoted_text, Name,
};
use vstd::prelude::*;

verus! {

/// How a table differs from the catalog.
#[derive(Debug, PartialEq, Eq)]
pub struct SchemaDiff {
    pub missing_columns: Vec<Column>,
    pub extra_columns: Vec<String>,
    /// Columns with the declared type and the one of the table.
    pub kind_mismatches: Vec<(String, String, String)>,
    /// Columns with whether `NOT NULL` is declared and whether the table has it.
    pub not_null_mismatches: Vec<(String, bool, bool)>,
    /// The declared primary key and the one of the table.
    pub pk_mismatch: Option<(Vec<String>, Vec<String>)>,
}

/// Why a database could not be reconciled.
#[derive(Debug, PartialEq, Eq)]
pub enum ProvisionError {
    Open(String),
    Sql(String),
    /// Something that is not a table has the table's name.
    NotATable { table: String, actual_type: String },
    /// A table exists already and differs.
    SchemaMismatch { table: String, diff: SchemaDiff },
}

/// Texts that are quoted, in brackets.
pub open spec fn quoted_list(names: Seq<Name>) -> Seq<char> {
    "["@ + joined(Seq::new(names.len(), |i: int| quoted(names[i])), ", "@) + "]"@
}

fn quoted_list_text(names: &Vec<String>) -> (r: String)
    ensures
        r@ == quoted_list(names_of(names@)),
{
    let ghost all = names_of(names@);
    let mut parts: Vec<String> = Vec::new();
    let mut i: usize = 0;
    while i < names.len()
        invariant
            i <= names.len(),
            parts.len() == i,
            all == names_of(names@),
            forall|j: int| 0 <= j < i ==> (#[trigger] parts@[j])@ == quoted(all[j]),
        decreases names.len() - i,
    {
        parts.push(quoted_text(names[i].as_str()));
        i += 1;
    }
    assert(names_of(parts@) =~= Seq::new(all.len(), |i: int| quoted(all[i])));
    let mut s = "[".to_owned();
    s.append(join_texts(&parts, ", ").as_str());
    s.append("]");
    s
}

/// The note about each column that is declared but absent.
pub open spec fn missing_notes(columns: Seq<ColumnView>) -> Seq<Seq<char>> {
    Seq::new(
        columns.len(),
        |i: int| "column `"@ + columns[i].name + "` is declared but absent"@,
    )
}

/// The note about each column that is not declared.
pub open spec fn extra_notes(names: Seq<Name>) -> Seq<Seq<char>> {
    Seq::new(
        names.len(),
        |i: int| "column `"@ + names[i] + "` is in the table but not declared"@,
    )
}

/// The note about each column of another type.
pub open spec fn kind_notes(s: Seq<(String, String, String)>) -> Seq<Seq<char>> {
    Seq::new(
        s.len(),
        |i: int|
            "column `"@ + s[i].0@ + "`: catalog expects `"@ + s[i].1@ + "`, table has `"@ + s[i].2@
                + "`"@,
    )
}

/// The note about each column that admits nulls in one place only.
pub open spec fn not_null_notes(s: Seq<(String, bool, bool)>) -> Seq<Seq<char>> {
    Seq::new(
        s.len(),
        |i: int|
            "column `"@ + s[i].0@ + "`: NOT NULL expected "@ + bool_word(s[i].1) + ", table has "@
                + bool_word(s[i].2),
    )
}

/// The note about another primary key.
pub open spec fn pk_notes(pk: Option<(Vec<String>, Vec<String>)>) -> Seq<Seq<char>> {
    match pk {
        Some((expected, actual)) => seq![
            "primary key: catalog expects "@ + quoted_list(names_of(expected@)) + ", table has "@
                + quoted_list(names_of(actual@)),
        ],
        None => Seq::empty(),
    }
}

/// The notes about a difference: absent columns, undeclared ones, types, nulls,
/// then the primary key.
pub open spec fn diff_notes(d: SchemaDiff) -> Seq<Seq<char>> {
    missing_notes(columns_view(d.missing_columns@)) + extra_notes(names_of(d.extra_columns@))
        + kind_notes(d.kind_mismatches@) + not_null_notes(d.not_null_mismatches@) + pk_notes(
        d.pk_mismatch,
    )
}

/// The diagnostic for a failure.
pub open spec fn failure(e: ProvisionError) -> DiagnosticView {
    match e {
        ProvisionError::Open(why) => error_view(
            nowhere(),
            "PV0010"@,
            "cannot open database: "@ + why@,
        ),
        ProvisionError::Sql(why) => error_view(
            nowhere(),
            "PV0010"@,
            "database error during provisioning: "@ + why@,
        ),
        ProvisionError::NotATable { table, actual_type } => error_view(
            nowhere(),
            "PV0009"@,
            "`"@ + table@ + "` exists as a "@ + actual_type@
                + ", not a table; provision never alters foreign objects"@,
        ),
        ProvisionError::SchemaMismatch { table, diff } => DiagnosticView {
            notes: diff_notes(diff),
            ..error_view(
                nowhere(),
                "PV0008"@,
                "table `"@ + table@
                    + "` does not match the catalog; provision does not migrate \u{2014} reconcile or drop it by hand"@,
            )
        },
    }
}

/// Adds notes to a diagnostic.
fn note_all(d: Diagnostic, notes: Vec<String>) -> (r: Diagnostic)
    ensures
        r@ == (DiagnosticView { notes: d@.notes + names_of(notes@), ..d@ }),
{
    let mut r = d;
    let mut i: usize = 0;
    let ghost all = names_of(notes@);
    assert(d@.notes + all.take(0) =~= d@.notes);
    while i < notes.len()
        invariant
            i <= notes.len(),
            all == names_of(notes@),
            r@ == (DiagnosticView { notes: d@.notes + all.take(i as int), ..d@ }),
        decreases notes.len() - i,
    {
        assert((d@.notes + all.take(i as int)).push(all[i as int]) =~= d@.notes + all.take(
            i as int + 1,
        ));
        r = r.with_note(notes[i].clone());
        i += 1;
    }
    assert(all.take(i as int) =~= all);
    r
}

fn missing_note_texts(columns: &Vec<Column>) -> (r: Vec<String>)
    ensures
        names_of(r@) == missing_notes(columns_view(columns@)),
{
    let mut r: Vec<String> = Vec::new();
    let mut i: usize = 0;
    let ghost want = missing_notes(columns_view(columns@));
    while i < columns.len()
        invariant
            i <= columns.len(),
            r.len() == i,
            want == missing_notes(columns_view(columns@)),
            forall|j: int| 0 <= j < i ==> (#[trigger] r@[j])@ == want[j],
        decreases columns.len() - i,
    {
        let mut s = "column `".to_owned();
        s.append(columns[i].name.as_str());
        s.append("` is declared but absent");
        assert(s@ == want[i as int]);
        r.push(s);
        i += 1;
    }
    assert(names_of(r@) =~= want);
    r
}

fn extra_note_texts(names: &Vec<String>) -> (r: Vec<String>)
    ensures
        names_of(r@) == extra_notes(names_of(names@)),
{
    let mut r: Vec<String> = Vec::new();
    let mut i: usize = 0;
    let ghost want = extra_notes(names_of(names@));
    while i < names.len()
        invariant
            i <= names.len(),
            r.len() == i,
            want == extra_notes(names_of(names@)),
            forall|j: int| 0 <= j < i ==> (#[trigger] r@[j])@ == want[j],
        decreases names.len() - i,
    {
        let mut s = "column `".to_owned();
        s.append(names[i].as_str());
        s.append("` is in the table but not declared");
        assert(s@ == want[i as int]);
        r.push(s);
        i += 1;
    }
    assert(names_of(r@) =~= want);
    r
}

fn kind_note_texts(mismatches: &Vec<(String, String, String)>) -> (r: Vec<String>)
    ensures
        names_of(r@) == kind_notes(mismatches@),
{
    let mut r: Vec<String> = Vec::new();
    let mut i: usize = 0;
    let ghost want = kind_notes(mismatches@);
    while i < mismatches.len()
        invariant
            i <= mismatches.len(),
            r.len() == i,
            want == kind_notes(mismatches@),
            forall|j: int| 0 <= j < i ==> (#[trigger] r@[j])@ == want[j],
        decreases mismatches.len() - i,
    {
        let mut s = "column `".to_owned();
        s.append(mismatches[i].0.as_str());
        s.append("`: catalog expects `");
        s.append(mismatches[i].1.as_str());
        s.append("`, table has `");
        s.append(mismatches[i].2.as_str());
        s.append("`");
        assert(s@ == want[i as int]);
        r.push(s);
        i += 1;
    }
    assert(names_of(r@) =~= want);
    r
}

fn not_null_note_texts(mismatches: &Vec<(String, bool, bool)>) -> (r: Vec<String>)
    ensures
        names_of(r@) == not_null_notes(mismatches@),
{
    let mut r: Vec<String> = Vec::new();
    let mut i: usize = 0;
    let ghost want = not_null_notes(mismatches@);
    while i < mismatches.len()
        invariant
            i <= mismatches.len(),
            r.len() == i,
            want == not_null_notes(mismatches@),
            forall|j: int| 0 <= j < i ==> (#[trigger] r@[j])@ == want[j],
        decreases mismatches.len() - i,
    {
        let mut s = "column `".to_owned();
        s.append(mismatches[i].0.as_str());
        s.append("`: NOT NULL expected ");
        s.append(bool_text(mismatches[i].1).as_str());
        s.append(", table has ");
        s.append(bool_text(mismatches[i].2).as_str());
        assert(s@ == want[i as int]);
        r.push(s);
        i += 1;
    }
    assert(names_of(r@) =~= want);
    r
}

/// The diagnostic with the notes about a difference.
pub fn attach_diff_notes(d: Diagnostic, diff: &SchemaDiff) -> (r: Diagnostic)
    ensures
        r@ == (DiagnosticView { notes: d@.notes + diff_notes(*diff), ..d@ }),
{
    let ghost at = d@.notes;
    let r = note_all(d, missing_note_texts(&diff.missing_columns));
    let r = note_all(r, extra_note_texts(&diff.extra_columns));
    let r = note_all(r, kind_note_texts(&diff.kind_mismatches));
    let r = note_all(r, not_null_note_texts(&diff.not_null_mismatches));
    let r = match &diff.pk_mismatch {
        Some((expected, actual)) => {
            let mut s = "primary key: catalog expects ".to_owned();
            s.append(quoted_list_text(expected).as_str());
            s.append(", table has ");
            s.append(quoted_list_text(actual).as_str());
            r.with_note(s)
        },
        None => r,
    };
    assert(r@.notes =~= at + diff_notes(*diff));
    r
}

/// Adds the diagnostic for a failure.
pub fn push_provision_error(diagnostics: &mut Vec<Diagnostic>, e: ProvisionError)
    ensures
        diagnostics_view(final(diagnostics)@) == diagnostics_view(old(diagnostics)@).push(
            failure(e),
        ),
{
    let d = match &e {
        ProvisionError::Open(why) => {
            let mut s = "cannot open database: ".to_owned();
            s.append(why.as_str());
            plain("PV0010", s)
        },
        ProvisionError::Sql(why) => {
            let mut s = "database error during provisioning: ".to_owned();
            s.append(why.as_str());
            plain("PV0010", s)
        },
        ProvisionError::NotATable { table, actual_type } => {
            let mut s = "`".to_owned();
            s.append(table.as_str());
            s.append("` exists as a ");
            s.append(actual_type.as_str());
            s.append(", not a table; provision never alters foreign objects");
            plain("PV0009", s)
        },
        ProvisionError::SchemaMismatch { table, diff } => {
            let mut s = "table `".to_owned();
            s.append(table.as_str());
            s.append(
                "` does not match the catalog; provision does not migrate \u{2014} reconcile or drop it by hand",
            );
            let d = attach_diff_notes(plain("PV0008", s), diff);
            assert(d@.notes =~= diff_notes(*diff));
            d
        },
    };
    report(diagnostics, d);
}

} // verus!
