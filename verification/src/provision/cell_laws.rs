//! What a seeded cell means: the value that the catalog's expression has.

use crate::provision::laws::tuples_of;
use crate::provision::rows::{
    cell_value, coerced, field_of, row_first, seeded, tuples_first, SeedView,
};
use crate::provision::schema::{
    CatalogRelvar, ColKind, ColumnView, Folded, InitCell, InitElement, SchemaView,
};
use crate::diag::Span;
use crate::rel_expr::LiteralView;
use crate::text::Name;
use vstd::prelude::*;

verus! {

/// Whether a literal is the number `n / d`, by cross multiplication.
pub open spec fn literal_is_ratio(l: LiteralView, n: int, d: int) -> bool {
    match l {
        LiteralView::Integer(k) => k * d == n,
        LiteralView::Rational(a, b) => a * d == n * b,
        _ => false,
    }
}

/// Whether a cell and a literal have one value: numbers that are the same quotient,
/// the same text, character or truth value, or the same approximate number in the
/// same spelling.
pub open spec fn cell_means(cell: SeedView, l: LiteralView) -> bool {
    match cell {
        SeedView::Integer(n) => literal_is_ratio(l, n, 1),
        SeedView::Rational(n, d) => d == 0 && l == LiteralView::Rational(n, 0) || d != 0
            && literal_is_ratio(l, n, d) && (l matches LiteralView::Rational(_, b) ==> b != 0),
        SeedView::Text(s) => l == LiteralView::Text(s),
        SeedView::Boolean(b) => l == LiteralView::Boolean(b),
        SeedView::Character(c) => l == LiteralView::Character(c),
        SeedView::Approximate { bits, notation, decimal } => {
            l == (LiteralView::Approximate { bits, notation, decimal })
        },
    }
}

/// Whether a column of that kind can hold the literal: whole numbers fit in columns
/// of either exact number kind, anything else in those of its own kind.
pub open spec fn column_takes(kind: ColKind, l: LiteralView) -> bool {
    match l {
        LiteralView::Integer(_) => kind == ColKind::Integer || kind == ColKind::Rational,
        LiteralView::Rational(_, _) => kind == ColKind::Rational,
        LiteralView::Text(_) => kind == ColKind::Text,
        LiteralView::Boolean(_) => kind == ColKind::Boolean,
        LiteralView::Character(_) => kind == ColKind::Character,
        LiteralView::Approximate { .. } => kind == ColKind::Approximate,
    }
}

/// A literal that is put into a column keeps its value: the quotient of numerator and
/// denominator is the literal's number, and everything else is as it was written. It
/// is put there exactly when the column can hold it.
pub proof fn law_cells_keep_their_value(l: LiteralView, kind: ColKind)
    ensures
        coerced(l, kind) is Some <==> column_takes(kind, l),
        coerced(l, kind) matches Some(cell) ==> cell_means(cell, l),
{
}

/// Whether the cell is what the tuple's last field of that name was folded to.
pub open spec fn cell_of_field(
    cell: SeedView,
    fields: Seq<(String, InitCell)>,
    attr: Name,
) -> bool {
    exists|k: int|
        {
            &&& 0 <= k < fields.len()
            &&& (#[trigger] fields[k]).0@ == attr
            &&& forall|m: int| k < m < fields.len() ==> (#[trigger] fields[m]).0@ != attr
            &&& fields[k].1.folded matches Folded::Scalar(lit) && cell_means(cell, lit@)
        }
}

proof fn lemma_field_of(fields: Seq<(String, InitCell)>, attr: Name) -> (k: int)
    requires
        field_of(fields, attr) is Some,
    ensures
        0 <= k < fields.len(),
        fields[k].0@ == attr,
        fields[k].1 == field_of(fields, attr)->0,
        forall|m: int| k < m < fields.len() ==> (#[trigger] fields[m]).0@ != attr,
    decreases fields.len(),
{
    if fields.last().0@ == attr {
        fields.len() - 1
    } else {
        let t = fields.drop_last();
        let k = lemma_field_of(t, attr);
        assert forall|m: int| k < m < fields.len() implies (#[trigger] fields[m]).0@ != attr by {
            if m < t.len() {
                assert(t[m] == fields[m]);
            }
        }
        k
    }
}

proof fn lemma_row_cells(
    r: CatalogRelvar,
    columns: Seq<ColumnView>,
    tuple: Span,
    fields: Seq<(String, InitCell)>,
    n: nat,
    j: int,
)
    requires
        row_first(r, columns, tuple, fields, n).1.len() == 0,
        0 <= j < n,
    ensures
        row_first(r, columns, tuple, fields, n).0.len() == n,
        cell_of_field(
            row_first(r, columns, tuple, fields, n).0[j],
            fields,
            r.columns@[j].0@,
        ),
    decreases n,
{
    reveal_with_fuel(row_first, 2);
    let attr = r.columns@[n - 1].0@;
    let value = cell_value(r.name@, attr, tuple, fields, columns[n - 1].kind);
    assert(value is Ok);
    let k = lemma_field_of(fields, attr);
    if let Folded::Scalar(lit) = fields[k].1.folded {
        law_cells_keep_their_value(lit@, columns[n - 1].kind);
        assert(cell_means(value->Ok_0, lit@));
    }
    assert(cell_of_field(value->Ok_0, fields, attr));
    if n > 1 {
        let i = if j < n - 1 {
            j
        } else {
            0
        };
        lemma_row_cells(r, columns, tuple, fields, (n - 1) as nat, i);
    }
}

proof fn lemma_tuple_cells(
    r: CatalogRelvar,
    columns: Seq<ColumnView>,
    elements: Seq<InitElement>,
    n: nat,
    i: int,
    j: int,
)
    requires
        tuples_first(r, columns, elements, n).1.len() == 0,
        0 <= i < n,
        0 <= j < columns.len(),
    ensures
        tuples_first(r, columns, elements, n).0.len() == n,
        elements[i].fields is Some,
        cell_of_field(
            tuples_first(r, columns, elements, n).0[i].0[j],
            elements[i].fields->0@,
            r.columns@[j].0@,
        ),
    decreases n,
{
    reveal_with_fuel(tuples_first, 2);
    let e = elements[n - 1];
    lemma_row_cells(r, columns, e.span, e.fields->0@, columns.len(), j);
    if n > 1 {
        let k = if i < n - 1 {
            i
        } else {
            0
        };
        lemma_tuple_cells(r, columns, elements, (n - 1) as nat, k, j);
    }
}

/// Each element of the initial value is seeded as a row whose cell in a column has the
/// value that the element gives the column's attribute.
pub proof fn law_seed_rows_keep_their_values(r: CatalogRelvar, s: SchemaView, i: int, j: int)
    requires
        seeded(r, s) is Ok,
        r.init is Some,
        0 <= i < r.init->0.elements->0@.len(),
        0 <= j < s.columns.len(),
    ensures
        tuples_of(r, s).len() == r.init->0.elements->0@.len(),
        r.init->0.elements->0@[i].fields is Some,
        cell_of_field(
            tuples_of(r, s)[i][j],
            r.init->0.elements->0@[i].fields->0@,
            r.columns@[j].0@,
        ),
{
    let elements = r.init->0.elements->0@;
    lemma_tuple_cells(r, s.columns, elements, elements.len(), i, j);
}

} // verus!
