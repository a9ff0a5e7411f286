//! Catalog relvars, and the tables that hold them.

use crate::diag::{diagnostics_view, error_view, Diagnostic, DiagnosticView, Span};
use crate::rel_expr::Literal;
use crate::text::{
    names_of, order_names, ordered, same_text, Name,
};
use crate::types::words::type_word;
use crate::types::{lookup_attr, Heading, Type, TypeView};
use vstd::prelude::*;

verus! {

/// What kind of value a column holds.
#[derive(Copy, Clone, PartialEq, Eq, Debug, Structural)]
pub enum ColKind {
    Integer,
    Text,
    Boolean,
    Rational,
    Approximate,
    Character,
}

/// A column of a table.
#[derive(Debug, PartialEq, Eq)]
pub struct Column {
    pub name: String,
    pub not_null: bool,
    pub kind: ColKind,
}

/// A table: its columns in order and the names of its primary key.
#[derive(Debug, PartialEq, Eq)]
pub struct Schema {
    pub table: String,
    pub columns: Vec<Column>,
    pub pk: Vec<String>,
}

/// What the constant folder makes of a cell.
#[derive(Debug)]
pub enum Folded {
    Scalar(Literal),
    /// The expression is not a constant scalar.
    NotConstant,
    /// The expression is constant, but evaluating it failed.
    Failed(String),
}

/// A cell of an initial value.
#[derive(Debug)]
pub struct InitCell {
    pub span: Span,
    pub folded: Folded,
}

/// An element of an initial relation.
#[derive(Debug)]
pub struct InitElement {
    pub span: Span,
    /// The fields by name; `None` when the element is not a tuple literal.
    pub fields: Option<Vec<(String, InitCell)>>,
}

/// The expression that gives a relvar its initial value.
#[derive(Debug)]
pub struct InitValue {
    pub span: Span,
    /// The elements of a relation literal; `None` when it is something else.
    pub elements: Option<Vec<InitElement>>,
}

/// A base relvar of a catalog, with the table that is to hold it.
#[derive(Debug)]
pub struct CatalogRelvar {
    pub name: String,
    pub heading: Heading,
    pub table_name: String,
    /// The `(attribute, column)` pairs.
    pub columns: Vec<(String, String)>,
    pub keys: Vec<Vec<String>>,
    pub init: Option<InitValue>,
}

/// What a [`Column`] stands for.
pub struct ColumnView {
    pub name: Name,
    pub not_null: bool,
    pub kind: ColKind,
}

/// What a [`Schema`] stands for.
pub struct SchemaView {
    pub table: Name,
    pub columns: Seq<ColumnView>,
    pub pk: Seq<Name>,
}

/// What a list of columns stands for.
pub open spec fn columns_view(s: Seq<Column>) -> Seq<ColumnView> {
    Seq::new(s.len(), |i: int| s[i]@)
}

/// What a schema that may be absent stands for.
pub open spec fn maybe_schema(s: Option<Schema>) -> Option<SchemaView> {
    match s {
        Some(s) => Some(s@),
        None => None,
    }
}

impl Column {
    pub open spec fn view(&self) -> ColumnView {
        ColumnView { name: self.name@, not_null: self.not_null, kind: self.kind }
    }
}

impl Schema {
    pub open spec fn view(&self) -> SchemaView {
        SchemaView {
            table: self.table@,
            columns: columns_view(self.columns@),
            pk: names_of(self.pk@),
        }
    }
}

/// Where a diagnostic points that belongs to no place in the catalog.
pub open spec fn nowhere() -> Span {
    Span { file: 0, start: 0, end: 0 }
}

/// An error that belongs to no place in the catalog.
pub fn plain(code: &str, message: String) -> (r: Diagnostic)
    ensures
        r@ == error_view(nowhere(), code@, message@),
{
    Diagnostic::error(Span::synthetic(0), code, message)
}

/// Adds a diagnostic to the list.
pub(crate) fn report(diagnostics: &mut Vec<Diagnostic>, d: Diagnostic)
    ensures
        diagnostics_view(final(diagnostics)@) == diagnostics_view(old(diagnostics)@).push(d@),
{
    let ghost was = diagnostics_view(diagnostics@);
    let ghost seen = d@;
    diagnostics.push(d);
    assert(diagnostics_view(diagnostics@) =~= was.push(seen));
}

/// The kind of column for values of a type; none for types whose values cannot
/// be seeded.
pub open spec fn kind_of_type(t: TypeView) -> Option<ColKind> {
    match t {
        TypeView::Integer => Some(ColKind::Integer),
        TypeView::Text => Some(ColKind::Text),
        TypeView::Boolean => Some(ColKind::Boolean),
        TypeView::Rational => Some(ColKind::Rational),
        TypeView::Approximate => Some(ColKind::Approximate),
        TypeView::Character => Some(ColKind::Character),
        _ => None,
    }
}

/// The kind of column for values of a type.
pub fn type_to_colkind(ty: &Type) -> (r: Option<ColKind>)
    ensures
        r == kind_of_type(ty@),
{
    match ty {
        Type::Integer => Some(ColKind::Integer),
        Type::Text => Some(ColKind::Text),
        Type::Boolean => Some(ColKind::Boolean),
        Type::Rational => Some(ColKind::Rational),
        Type::Approximate => Some(ColKind::Approximate),
        Type::Character => Some(ColKind::Character),
        _ => None,
    }
}

/// The column that the catalog binds to an attribute: the last one that names
/// it.
pub open spec fn column_for(columns: Seq<(String, String)>, attr: Name) -> Option<Name>
    decreases columns.len(),
{
    if columns.len() == 0 {
        None
    } else if columns.last().0@ == attr {
        Some(columns.last().1@)
    } else {
        column_for(columns.drop_last(), attr)
    }
}

fn bound_column<'a>(columns: &'a Vec<(String, String)>, attr: &str) -> (r: Option<&'a String>)
    ensures
        column_for(columns@, attr@) == match r {
            Some(c) => Some(c@),
            None => None::<Name>,
        },
{
    let mut n: usize = columns.len();
    assert(columns@.take(n as int) =~= columns@);
    while n > 0
        invariant
            n <= columns.len(),
            column_for(columns@, attr@) == column_for(columns@.take(n as int), attr@),
        decreases n,
    {
        proof {
            let t = columns@.take(n as int);
            assert(t.last() == columns@[n - 1]);
            assert(t.drop_last() =~= columns@.take(n - 1));
        }
        if same_text(columns[n - 1].0.as_str(), attr) {
            return Some(&columns[n - 1].1);
        }
        n -= 1;
    }
    None
}

/// The complaint about an attribute whose type cannot be seeded.
pub open spec fn no_column_kind(relvar: Name, attr: Name, ty: Option<TypeView>) -> DiagnosticView {
    error_view(
        nowhere(),
        "PV0001"@,
        "relvar `"@ + relvar + "`: attribute `"@ + attr + "` has type `"@ + match ty {
            Some(t) => type_word(t),
            None => "?"@,
        } + "`, which has no provisionable column type (only Integer, Text, Boolean, Rational, Approximate, and Character can be seeded)"@,
    )
}

/// The complaint about a key attribute without a column.
pub open spec fn unbound_key(relvar: Name, attr: Name) -> DiagnosticView {
    error_view(
        nowhere(),
        "PV0001"@,
        "relvar `"@ + relvar + "`: key attribute `"@ + attr + "` has no column binding"@,
    )
}

/// The complaint about a relvar without a key.
pub open spec fn no_key(relvar: Name) -> DiagnosticView {
    error_view(
        nowhere(),
        "PV0001"@,
        "relvar `"@ + relvar + "` has no candidate key to materialize as a PRIMARY KEY"@,
    )
}

/// The kind of the column for an attribute.
pub open spec fn attr_kind(r: CatalogRelvar, attr: Name) -> Option<ColKind> {
    match lookup_attr(r.heading@, attr) {
        Some(t) => kind_of_type(t),
        None => None,
    }
}

/// The columns of the first `n` attributes, and a complaint about each that has
/// no kind.
pub open spec fn columns_first(r: CatalogRelvar, n: nat) -> (
    Seq<ColumnView>,
    Seq<DiagnosticView>,
)
    decreases n,
{
    if n == 0 {
        (Seq::empty(), Seq::empty())
    } else {
        let (columns, complaints) = columns_first(r, (n - 1) as nat);
        let attr = r.columns@[n - 1].0@;
        match attr_kind(r, attr) {
            Some(kind) => (
                columns.push(ColumnView { name: r.columns@[n - 1].1@, not_null: true, kind }),
                complaints,
            ),
            None => (
                columns,
                complaints.push(no_column_kind(r.name@, attr, lookup_attr(r.heading@, attr))),
            ),
        }
    }
}

/// The columns of the first `n` attributes of a key, and a complaint about each
/// that has none.
pub open spec fn key_columns_first(r: CatalogRelvar, key: Seq<Name>, n: nat) -> (
    Seq<Name>,
    Seq<DiagnosticView>,
)
    decreases n,
{
    if n == 0 {
        (Seq::empty(), Seq::empty())
    } else {
        let (columns, complaints) = key_columns_first(r, key, (n - 1) as nat);
        match column_for(r.columns@, key[n - 1]) {
            Some(c) => (columns.push(c), complaints),
            None => (columns, complaints.push(unbound_key(r.name@, key[n - 1]))),
        }
    }
}

/// The primary key: the columns of the first candidate key in name order.
pub open spec fn primary_key(r: CatalogRelvar) -> (Seq<Name>, Seq<DiagnosticView>) {
    if r.keys@.len() == 0 {
        (Seq::empty(), seq![no_key(r.name@)])
    } else {
        let key = names_of(r.keys@[0]@);
        let (columns, complaints) = key_columns_first(r, key, key.len());
        (ordered(columns), complaints)
    }
}

/// What is wrong with a relvar as a table, columns first.
pub open spec fn schema_complaints(r: CatalogRelvar) -> Seq<DiagnosticView> {
    columns_first(r, r.columns@.len()).1 + primary_key(r).1
}

/// The table for a relvar; none when there is anything to complain about.
pub open spec fn schema_of(r: CatalogRelvar) -> Option<SchemaView> {
    if schema_complaints(r).len() == 0 {
        Some(
            SchemaView {
                table: r.table_name@,
                columns: columns_first(r, r.columns@.len()).0,
                pk: primary_key(r).0,
            },
        )
    } else {
        None
    }
}

fn complain_kind(relvar: &str, attr: &str, ty: Option<&Type>) -> (r: Diagnostic)
    ensures
        r@ == no_column_kind(
            relvar@,
            attr@,
            match ty {
                Some(t) => Some(t@),
                None => None,
            },
        ),
{
    let mut s = "relvar `".to_owned();
    s.append(relvar);
    s.append("`: attribute `");
    s.append(attr);
    s.append("` has type `");
    match ty {
        Some(t) => {
            s.append(t.word().as_str());
        },
        None => {
            s.append("?");
        },
    }
    s.append(
        "`, which has no provisionable column type (only Integer, Text, Boolean, Rational, Approximate, and Character can be seeded)",
    );
    plain("PV0001", s)
}

fn build_columns(relvar: &CatalogRelvar, diagnostics: &mut Vec<Diagnostic>) -> (r: Vec<Column>)
    ensures
        columns_view(r@) == columns_first(*relvar, relvar.columns@.len()).0,
        diagnostics_view(final(diagnostics)@) == diagnostics_view(old(diagnostics)@)
            + columns_first(*relvar, relvar.columns@.len()).1,
{
    let ghost was = diagnostics_view(diagnostics@);
    let mut columns: Vec<Column> = Vec::new();
    let mut i: usize = 0;
    assert(columns_view(columns@) =~= Seq::<ColumnView>::empty());
    assert(was =~= was + Seq::<DiagnosticView>::empty());
    while i < relvar.columns.len()
        invariant
            i <= relvar.columns.len(),
            columns_view(columns@) == columns_first(*relvar, i as nat).0,
            diagnostics_view(diagnostics@) == was + columns_first(*relvar, i as nat).1,
        decreases relvar.columns.len() - i,
    {
        let attr = relvar.columns[i].0.as_str();
        let ty = relvar.heading.lookup(attr);
        let kind = match ty {
            Some(t) => type_to_colkind(t),
            None => None,
        };
        let ghost before = columns_view(columns@);
        let ghost said = columns_first(*relvar, i as nat).1;
        match kind {
            Some(kind) => {
                columns.push(Column { name: relvar.columns[i].1.clone(), not_null: true, kind });
                assert(columns_view(columns@) =~= before.push(columns@.last()@));
            },
            None => {
                let d = complain_kind(relvar.name.as_str(), attr, ty);
                let ghost seen = d@;
                report(diagnostics, d);
                assert((was + said).push(seen) =~= was + said.push(seen));
            },
        }
        i += 1;
    }
    columns
}

fn build_key(
    relvar: &CatalogRelvar,
    key: &Vec<String>,
    diagnostics: &mut Vec<Diagnostic>,
) -> (r: Vec<String>)
    ensures
        names_of(r@) == key_columns_first(*relvar, names_of(key@), key@.len()).0,
        diagnostics_view(final(diagnostics)@) == diagnostics_view(old(diagnostics)@)
            + key_columns_first(*relvar, names_of(key@), key@.len()).1,
{
    let ghost was = diagnostics_view(diagnostics@);
    let ghost names = names_of(key@);
    let mut columns: Vec<String> = Vec::new();
    let mut i: usize = 0;
    assert(names_of(columns@) =~= Seq::<Name>::empty());
    assert(was =~= was + Seq::<DiagnosticView>::empty());
    while i < key.len()
        invariant
            i <= key.len(),
            names == names_of(key@),
            names_of(columns@) == key_columns_first(*relvar, names, i as nat).0,
            diagnostics_view(diagnostics@) == was + key_columns_first(*relvar, names, i as nat).1,
        decreases key.len() - i,
    {
        let attr = key[i].as_str();
        let ghost before = names_of(columns@);
        let ghost said = key_columns_first(*relvar, names, i as nat).1;
        assert(names[i as int] == attr@);
        match bound_column(&relvar.columns, attr) {
            Some(c) => {
                columns.push(c.clone());
                assert(names_of(columns@) =~= before.push(c@));
            },
            None => {
                let mut s = "relvar `".to_owned();
                s.append(relvar.name.as_str());
                s.append("`: key attribute `");
                s.append(attr);
                s.append("` has no column binding");
                let d = plain("PV0001", s);
                let ghost seen = d@;
                report(diagnostics, d);
                assert((was + said).push(seen) =~= was + said.push(seen));
            },
        }
        i += 1;
    }
    columns
}

/// The table for a relvar. What stands in the way is added to the diagnostics.
pub fn build_schema(relvar: &CatalogRelvar, diagnostics: &mut Vec<Diagnostic>) -> (r: Option<
    Schema,
>)
    ensures
        maybe_schema(r) == schema_of(*relvar),
        diagnostics_view(final(diagnostics)@) == diagnostics_view(old(diagnostics)@)
            + schema_complaints(*relvar),
{
    let ghost was = diagnostics_view(diagnostics@);
    let count: usize = diagnostics.len();
    let columns = build_columns(relvar, diagnostics);
    let ghost middle = diagnostics_view(diagnostics@);
    let pk = if relvar.keys.len() == 0 {
        let mut s = "relvar `".to_owned();
        s.append(relvar.name.as_str());
        s.append("` has no candidate key to materialize as a PRIMARY KEY");
        let d = plain("PV0001", s);
        let ghost seen = d@;
        report(diagnostics, d);
        assert(middle.push(seen) =~= middle + seq![seen]);
        let none: Vec<String> = Vec::new();
        assert(names_of(none@) =~= Seq::<Name>::empty());
        none
    } else {
        order_names(build_key(relvar, &relvar.keys[0], diagnostics))
    };
    proof {
        assert(diagnostics_view(diagnostics@) =~= was + schema_complaints(*relvar));
        assert(diagnostics_view(diagnostics@).len() == diagnostics@.len());
        assert(was.len() == count);
    }
    if diagnostics.len() == count {
        Some(Schema { table: relvar.table_name.clone(), columns, pk })
    } else {
        None
    }
}

} // verus!
