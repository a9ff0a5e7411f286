//! Laws of provisioning.

use crate::diag::{any_error, diagnostics_view, DiagnosticView, Severity, Span};
use crate::heading_laws::law_name_order;
use crate::lower::program::BackendKind;
use crate::provision::rows::{
    kept_first, key_of, key_positions, position_from, row_first, same_row, same_value, seeded,
    tuples_first, with_key, RowView, SeedView,
};
use crate::provision::schema::{
    attr_kind, columns_first, key_columns_first, schema_complaints, schema_of,
    CatalogRelvar, ColKind, ColumnView, InitCell, InitElement, SchemaView,
};
use crate::provision::{
    lemma_columns_len, stepped, table_of, tables_first, ResolvedCatalog, StepView, TableView,
};
use crate::text::{before, insert_name, names_of, ordered, Name};
use vstd::prelude::*;

verus! {

/// Names of which none comes before an earlier one.
pub open spec fn never_falls(s: Seq<Name>) -> bool {
    forall|i: int, j: int| 0 <= i < j < s.len() ==> !before(#[trigger] s[j], #[trigger] s[i])
}

proof fn lemma_insert_name(s: Seq<Name>, name: Name)
    requires
        never_falls(s),
    ensures
        never_falls(insert_name(s, name)),
        insert_name(s, name).to_multiset() =~= s.to_multiset().insert(name),
        forall|i: int|
            0 <= i < insert_name(s, name).len() ==> insert_name(s, name)[i] == name || s.contains(
                #[trigger] insert_name(s, name)[i],
            ),
    decreases s.len(),
{
    broadcast use vstd::seq_lib::group_to_multiset_ensures;

    let r = insert_name(s, name);
    if s.len() > 0 && before(name, s.last()) {
        let t = s.drop_last();
        let inner = insert_name(t, name);
        assert(never_falls(t));
        lemma_insert_name(t, name);
        assert(s =~= t.push(s.last()));
        assert forall|i: int| 0 <= i < r.len() implies r[i] == name || s.contains(
            #[trigger] r[i],
        ) by {
            if i < inner.len() {
                assert(r[i] == inner[i]);
                if inner[i] != name {
                    let k = choose|k: int| 0 <= k < t.len() && t[k] == inner[i];
                    assert(s[k] == r[i]);
                }
            } else {
                assert(s[s.len() - 1] == r[i]);
            }
        }
        assert forall|i: int, j: int| 0 <= i < j < r.len() implies !before(
            #[trigger] r[j],
            #[trigger] r[i],
        ) by {
            if j < inner.len() {
                assert(r[i] == inner[i] && r[j] == inner[j]);
            } else {
                assert(r[j] == s.last());
                assert(r[i] == inner[i]);
                if inner[i] == name {
                    law_name_order(name, s.last(), name);
                } else {
                    let k = choose|k: int| 0 <= k < t.len() && t[k] == inner[i];
                    assert(!before(s[s.len() - 1], s[k]));
                }
            }
        }
    } else {
        assert forall|i: int| 0 <= i < r.len() implies r[i] == name || s.contains(
            #[trigger] r[i],
        ) by {
            if i < s.len() {
                assert(s[i] == r[i]);
            }
        }
        assert forall|i: int, j: int| 0 <= i < j < r.len() implies !before(
            #[trigger] r[j],
            #[trigger] r[i],
        ) by {
            if j < s.len() {
                assert(!before(s[j], s[i]));
            } else if i < s.len() - 1 {
                assert(!before(s[s.len() - 1], s[i]));
                law_name_order(name, s[i], s[s.len() - 1]);
                law_name_order(s[i], s[s.len() - 1], s[i]);
            }
        }
    }
}

/// Ordering names drops and adds none, and leaves none before an earlier one.
pub proof fn law_ordered_names(s: Seq<Name>)
    ensures
        never_falls(ordered(s)),
        ordered(s).to_multiset() == s.to_multiset(),
    decreases s.len(),
{
    broadcast use vstd::seq_lib::group_to_multiset_ensures;

    if s.len() > 0 {
        let t = s.drop_last();
        law_ordered_names(t);
        lemma_insert_name(ordered(t), s.last());
        assert(s =~= t.push(s.last()));
    } else {
        assert(s =~= Seq::empty());
    }
}

/// The columns of a schema are those that the catalog binds, in order, none of
/// them nullable and each of the kind of its attribute's type.
pub proof fn law_schema_columns(r: CatalogRelvar, i: int)
    requires
        schema_of(r) is Some,
        0 <= i < r.columns@.len(),
    ensures
        schema_of(r)->0.columns.len() == r.columns@.len(),
        attr_kind(r, r.columns@[i].0@) == Some(schema_of(r)->0.columns[i].kind),
        schema_of(r)->0.columns[i].name == r.columns@[i].1@,
        schema_of(r)->0.columns[i].not_null,
{
    lemma_columns_len(r, r.columns@.len());
    lemma_schema_columns(r, r.columns@.len(), i);
}

proof fn lemma_schema_columns(r: CatalogRelvar, n: nat, i: int)
    requires
        n <= r.columns@.len(),
        columns_first(r, n).1.len() == 0,
        0 <= i < n,
    ensures
        ({
            let c = columns_first(r, n).0[i];
            &&& attr_kind(r, r.columns@[i].0@) == Some(c.kind)
            &&& c.name == r.columns@[i].1@
            &&& c.not_null
        }),
    decreases n,
{
    lemma_columns_len(r, n);
    lemma_columns_len(r, (n - 1) as nat);
    if i < n - 1 {
        lemma_schema_columns(r, (n - 1) as nat, i);
    }
}

/// The primary key is the first candidate key: its columns, in name order.
pub proof fn law_primary_key_is_the_first_key(r: CatalogRelvar)
    requires
        schema_of(r) is Some,
    ensures
        r.keys@.len() > 0,
        never_falls(schema_of(r)->0.pk),
        schema_of(r)->0.pk.to_multiset() == key_columns_first(
            r,
            names_of(r.keys@[0]@),
            r.keys@[0]@.len(),
        ).0.to_multiset(),
        key_columns_first(r, names_of(r.keys@[0]@), r.keys@[0]@.len()).0.len()
            == r.keys@[0]@.len(),
{
    let key = names_of(r.keys@[0]@);
    law_ordered_names(key_columns_first(r, key, key.len()).0);
    lemma_key_columns_len(r, key, key.len());
}

proof fn lemma_key_columns_len(r: CatalogRelvar, key: Seq<Name>, n: nat)
    ensures
        key_columns_first(r, key, n).0.len() + key_columns_first(r, key, n).1.len() == n,
    decreases n,
{
    if n > 0 {
        lemma_key_columns_len(r, key, (n - 1) as nat);
    }
}

/// The kind of column that a value belongs in.
pub open spec fn kind_of_value(v: SeedView) -> ColKind {
    match v {
        SeedView::Integer(_) => ColKind::Integer,
        SeedView::Text(_) => ColKind::Text,
        SeedView::Boolean(_) => ColKind::Boolean,
        SeedView::Rational(_, _) => ColKind::Rational,
        SeedView::Approximate { .. } => ColKind::Approximate,
        SeedView::Character(_) => ColKind::Character,
    }
}

/// Whether a row has one value for each column, of that column's kind.
pub open spec fn row_fits(row: RowView, columns: Seq<ColumnView>) -> bool {
    &&& row.len() == columns.len()
    &&& forall|i: int|
        0 <= i < row.len() ==> kind_of_value(#[trigger] row[i]) == columns[i].kind
}

proof fn lemma_row_fits(
    r: CatalogRelvar,
    columns: Seq<ColumnView>,
    tuple: Span,
    fields: Seq<(String, InitCell)>,
    n: nat,
)
    requires
        n <= columns.len(),
        row_first(r, columns, tuple, fields, n).1.len() == 0,
    ensures
        row_fits(row_first(r, columns, tuple, fields, n).0, columns.take(n as int)),
    decreases n,
{
    if n > 0 {
        let before = row_first(r, columns, tuple, fields, (n - 1) as nat).0;
        let row = row_first(r, columns, tuple, fields, n).0;
        lemma_row_fits(r, columns, tuple, fields, (n - 1) as nat);
        assert forall|i: int| 0 <= i < row.len() implies kind_of_value(#[trigger] row[i])
            == columns.take(n as int)[i].kind by {
            if i < before.len() {
                assert(row[i] == before[i]);
                assert(columns.take(n - 1)[i] == columns.take(n as int)[i]);
            }
        }
    }
}

proof fn lemma_tuples_fit(
    r: CatalogRelvar,
    columns: Seq<ColumnView>,
    elements: Seq<InitElement>,
    n: nat,
    j: int,
)
    requires
        0 <= j < tuples_first(r, columns, elements, n).0.len(),
    ensures
        row_fits(tuples_first(r, columns, elements, n).0[j].0, columns),
    decreases n,
{
    let before = tuples_first(r, columns, elements, (n - 1) as nat).0;
    if j < before.len() {
        lemma_tuples_fit(r, columns, elements, (n - 1) as nat, j);
    } else {
        let e = elements[n - 1];
        lemma_row_fits(r, columns, e.span, e.fields->0@, columns.len());
        assert(columns.take(columns.len() as int) =~= columns);
    }
}

/// The tuples that a relvar's initial value holds, when each can be read.
pub open spec fn tuples_of(r: CatalogRelvar, s: SchemaView) -> Seq<RowView> {
    match r.init {
        Some(init) => match init.elements {
            Some(elements) => {
                let tuples = tuples_first(r, s.columns, elements@, elements@.len()).0;
                Seq::new(tuples.len(), |i: int| tuples[i].0)
            },
            None => Seq::empty(),
        },
        None => Seq::empty(),
    }
}

proof fn lemma_with_key(rows: Seq<RowView>, row: RowView, positions: Seq<int>, n: nat)
    requires
        n <= rows.len(),
    ensures
        match with_key(rows, row, positions, n) {
            Some(found) => exists|i: int| 0 <= i < n && #[trigger] rows[i] == found,
            None => forall|i: int|
                0 <= i < n ==> !same_row(
                    key_of(#[trigger] rows[i], positions),
                    key_of(row, positions),
                ),
        },
    decreases n,
{
    if n > 0 {
        lemma_with_key(rows, row, positions, (n - 1) as nat);
        assert(rows[n - 1] == rows[n - 1]);
    }
}

/// Whether the row is one of these.
pub open spec fn holds_row(rows: Seq<RowView>, row: RowView) -> bool {
    exists|j: int| 0 <= j < rows.len() && same_row(#[trigger] rows[j], row)
}

proof fn lemma_kept_keys(
    relvar: Name,
    pk: Seq<Name>,
    positions: Seq<int>,
    tuples: Seq<(RowView, Span)>,
    n: nat,
    i: int,
    j: int,
)
    requires
        0 <= i < j < kept_first(relvar, pk, positions, tuples, n).0.len(),
    ensures
        !same_row(
            key_of(kept_first(relvar, pk, positions, tuples, n).0[i], positions),
            key_of(kept_first(relvar, pk, positions, tuples, n).0[j], positions),
        ),
    decreases n,
{
    let before = kept_first(relvar, pk, positions, tuples, (n - 1) as nat).0;
    if j < before.len() {
        lemma_kept_keys(relvar, pk, positions, tuples, (n - 1) as nat, i, j);
    } else {
        lemma_with_key(before, tuples[n - 1].0, positions, before.len());
    }
}

proof fn lemma_kept_covers(
    relvar: Name,
    pk: Seq<Name>,
    positions: Seq<int>,
    tuples: Seq<(RowView, Span)>,
    n: nat,
    i: int,
)
    requires
        0 <= i < n,
        kept_first(relvar, pk, positions, tuples, n).1.len() == 0,
    ensures
        holds_row(kept_first(relvar, pk, positions, tuples, n).0, tuples[i].0),
    decreases n,
{
    let before = kept_first(relvar, pk, positions, tuples, (n - 1) as nat).0;
    let rows = kept_first(relvar, pk, positions, tuples, n).0;
    if i < n - 1 {
        lemma_kept_covers(relvar, pk, positions, tuples, (n - 1) as nat, i);
        let j = choose|j: int| 0 <= j < before.len() && same_row(#[trigger] before[j], tuples[i].0);
        assert(rows[j] == before[j]);
    } else {
        let row = tuples[n - 1].0;
        lemma_with_key(before, row, positions, before.len());
        match with_key(before, row, positions, before.len()) {
            Some(found) => {
                let j = choose|j: int| 0 <= j < before.len() && #[trigger] before[j] == found;
                assert(same_row(rows[j], row));
            },
            None => {
                assert(same_row(rows[rows.len() - 1], row));
            },
        }
    }
}

proof fn lemma_kept_drawn(
    relvar: Name,
    pk: Seq<Name>,
    positions: Seq<int>,
    tuples: Seq<(RowView, Span)>,
    n: nat,
    j: int,
) -> (i: int)
    requires
        0 <= j < kept_first(relvar, pk, positions, tuples, n).0.len(),
    ensures
        0 <= i < n,
        tuples[i].0 == kept_first(relvar, pk, positions, tuples, n).0[j],
    decreases n,
{
    let before = kept_first(relvar, pk, positions, tuples, (n - 1) as nat).0;
    if j < before.len() {
        lemma_kept_drawn(relvar, pk, positions, tuples, (n - 1) as nat, j)
    } else {
        n - 1
    }
}

/// No two seed rows have the same key.
pub proof fn law_seed_keys_are_unique(r: CatalogRelvar, s: SchemaView, i: int, j: int)
    requires
        seeded(r, s) is Ok,
        0 <= i < j < seeded(r, s)->Ok_0.len(),
    ensures
        !same_row(
            key_of(seeded(r, s)->Ok_0[i], key_positions(s.columns, s.pk, s.pk.len())),
            key_of(seeded(r, s)->Ok_0[j], key_positions(s.columns, s.pk, s.pk.len())),
        ),
{
    let elements = r.init->0.elements->0;
    let positions = key_positions(s.columns, s.pk, s.pk.len());
    let tuples = tuples_first(r, s.columns, elements@, elements@.len()).0;
    lemma_kept_keys(r.name@, s.pk, positions, tuples, tuples.len(), i, j);
}

proof fn lemma_position_in_range(columns: Seq<ColumnView>, name: Name, from: nat)
    ensures
        position_from(columns, name, from) matches Some(p) ==> p < columns.len(),
    decreases columns.len() - from,
{
    if from < columns.len() {
        lemma_position_in_range(columns, name, from + 1);
    }
}

proof fn lemma_key_positions_in_range(columns: Seq<ColumnView>, pk: Seq<Name>, n: nat, k: int)
    requires
        0 <= k < key_positions(columns, pk, n).len(),
    ensures
        0 <= key_positions(columns, pk, n)[k] < columns.len(),
    decreases n,
{
    let before = key_positions(columns, pk, (n - 1) as nat);
    if k < before.len() {
        lemma_key_positions_in_range(columns, pk, (n - 1) as nat, k);
    } else {
        lemma_position_in_range(columns, pk[n - 1], 0);
    }
}

/// Seed rows are a set: no two of them are the same.
pub proof fn law_seed_rows_are_distinct(r: CatalogRelvar, s: SchemaView, i: int, j: int)
    requires
        seeded(r, s) is Ok,
        0 <= i < j < seeded(r, s)->Ok_0.len(),
    ensures
        !same_row(seeded(r, s)->Ok_0[i], seeded(r, s)->Ok_0[j]),
{
    let a = seeded(r, s)->Ok_0[i];
    let b = seeded(r, s)->Ok_0[j];
    let positions = key_positions(s.columns, s.pk, s.pk.len());
    law_seed_keys_are_unique(r, s, i, j);
    law_seed_rows_fit_columns(r, s, i);
    if same_row(a, b) {
        let (x, y) = (key_of(a, positions), key_of(b, positions));
        assert forall|k: int| 0 <= k < x.len() implies same_value(#[trigger] x[k], y[k]) by {
            lemma_key_positions_in_range(s.columns, s.pk, s.pk.len(), k);
            assert(same_value(a[positions[k]], b[positions[k]]));
        }
    }
}

/// Every tuple of the initial value is seeded, and nothing else is.
pub proof fn law_seed_rows_are_the_tuples(r: CatalogRelvar, s: SchemaView, row: RowView)
    requires
        seeded(r, s) is Ok,
    ensures
        tuples_of(r, s).contains(row) ==> holds_row(seeded(r, s)->Ok_0, row),
        seeded(r, s)->Ok_0.contains(row) ==> tuples_of(r, s).contains(row),
{
    if r.init is Some {
        let elements = r.init->0.elements->0;
        let positions = key_positions(s.columns, s.pk, s.pk.len());
        let tuples = tuples_first(r, s.columns, elements@, elements@.len()).0;
        let all = tuples_of(r, s);
        let rows = seeded(r, s)->Ok_0;
        if all.contains(row) {
            let i = choose|i: int| 0 <= i < all.len() && all[i] == row;
            lemma_kept_covers(r.name@, s.pk, positions, tuples, tuples.len(), i);
        }
        if rows.contains(row) {
            let j = choose|j: int| 0 <= j < rows.len() && rows[j] == row;
            let i = lemma_kept_drawn(r.name@, s.pk, positions, tuples, tuples.len(), j);
            assert(all[i] == row);
        }
    }
}

/// A seed row has one value for each column, of that column's kind.
pub proof fn law_seed_rows_fit_columns(r: CatalogRelvar, s: SchemaView, j: int)
    requires
        seeded(r, s) is Ok,
        0 <= j < seeded(r, s)->Ok_0.len(),
    ensures
        row_fits(seeded(r, s)->Ok_0[j], s.columns),
{
    let elements = r.init->0.elements->0;
    let positions = key_positions(s.columns, s.pk, s.pk.len());
    let tuples = tuples_first(r, s.columns, elements@, elements@.len()).0;
    let i = lemma_kept_drawn(r.name@, s.pk, positions, tuples, tuples.len(), j);
    lemma_tuples_fit(r, s.columns, elements@, elements@.len(), i);
}

/// Whether every one of the diagnostics is an error.
pub open spec fn all_errors(s: Seq<DiagnosticView>) -> bool {
    forall|i: int| 0 <= i < s.len() ==> (#[trigger] s[i]).severity == Severity::Error
}

proof fn lemma_columns_complain(r: CatalogRelvar, n: nat)
    ensures
        all_errors(columns_first(r, n).1),
    decreases n,
{
    if n > 0 {
        lemma_columns_complain(r, (n - 1) as nat);
    }
}

proof fn lemma_key_complains(r: CatalogRelvar, key: Seq<Name>, n: nat)
    ensures
        all_errors(key_columns_first(r, key, n).1),
    decreases n,
{
    if n > 0 {
        lemma_key_complains(r, key, (n - 1) as nat);
    }
}

proof fn lemma_row_complains(
    r: CatalogRelvar,
    columns: Seq<ColumnView>,
    tuple: Span,
    fields: Seq<(String, InitCell)>,
    n: nat,
)
    ensures
        all_errors(row_first(r, columns, tuple, fields, n).1),
    decreases n,
{
    if n > 0 {
        lemma_row_complains(r, columns, tuple, fields, (n - 1) as nat);
    }
}

proof fn lemma_tuples_complain(
    r: CatalogRelvar,
    columns: Seq<ColumnView>,
    elements: Seq<InitElement>,
    n: nat,
)
    ensures
        all_errors(tuples_first(r, columns, elements, n).1),
    decreases n,
{
    if n > 0 {
        lemma_tuples_complain(r, columns, elements, (n - 1) as nat);
        let e = elements[n - 1];
        if e.fields is Some {
            lemma_row_complains(r, columns, e.span, e.fields->0@, columns.len());
        }
    }
}

proof fn lemma_kept_complains(
    relvar: Name,
    pk: Seq<Name>,
    positions: Seq<int>,
    tuples: Seq<(RowView, Span)>,
    n: nat,
)
    ensures
        all_errors(kept_first(relvar, pk, positions, tuples, n).1),
    decreases n,
{
    if n > 0 {
        lemma_kept_complains(relvar, pk, positions, tuples, (n - 1) as nat);
    }
}

/// A relvar that has no table is complained about, by errors only.
pub proof fn law_failed_fold_is_reported(r: CatalogRelvar)
    requires
        table_of(r) is Err,
    ensures
        table_of(r)->Err_0.len() > 0,
        all_errors(table_of(r)->Err_0),
{
    lemma_columns_complain(r, r.columns@.len());
    if r.keys@.len() > 0 {
        let key = names_of(r.keys@[0]@);
        lemma_key_complains(r, key, key.len());
    }
    assert(all_errors(schema_complaints(r)));
    if let Some(s) = schema_of(r) {
        if r.init is Some && r.init->0.elements is Some {
            let elements = r.init->0.elements->0;
            let positions = key_positions(s.columns, s.pk, s.pk.len());
            let tuples = tuples_first(r, s.columns, elements@, elements@.len()).0;
            lemma_tuples_complain(r, s.columns, elements@, elements@.len());
            lemma_kept_complains(r.name@, s.pk, positions, tuples, tuples.len());
        }
    }
}

proof fn lemma_tables(relvars: Seq<CatalogRelvar>, n: nat)
    ensures
        ({
            let (tables, complaints) = tables_first(relvars, n);
            &&& tables.len() <= n
            &&& all_errors(complaints)
            &&& tables.len() == n <==> complaints.len() == 0
            &&& tables.len() == n ==> forall|i: int|
                0 <= i < n ==> table_of(relvars[i]) == Ok::<TableView, Seq<DiagnosticView>>(
                    #[trigger] tables[i],
                )
        }),
    decreases n,
{
    if n > 0 {
        lemma_tables(relvars, (n - 1) as nat);
        if table_of(relvars[n - 1]) is Err {
            law_failed_fold_is_reported(relvars[n - 1]);
        }
    }
}

/// Only a catalog that folds without an error reaches the database, and all of
/// it does: one table for each relvar.
pub proof fn law_only_clean_catalogs_are_reconciled(c: ResolvedCatalog, file: Option<Name>)
    ensures
        stepped(c, file) matches StepView::Reconcile { path, tables, diagnostics } ==> {
            &&& !any_error(diagnostics)
            &&& diagnostics == diagnostics_view(c.diagnostics@)
            &&& c.plan is Some
            &&& c.plan->0.backend_kind == BackendKind::Sqlite
            &&& tables.len() == c.plan->0.relvars@.len()
            &&& forall|i: int|
                0 <= i < tables.len() ==> table_of(c.plan->0.relvars@[i]) == Ok::<
                    TableView,
                    Seq<DiagnosticView>,
                >(#[trigger] tables[i])
        },
{
    if c.plan is Some {
        let relvars = c.plan->0.relvars@;
        lemma_tables(relvars, relvars.len());
        let said = diagnostics_view(c.diagnostics@);
        assert(said + Seq::<DiagnosticView>::empty() =~= said);
        assert(tables_first(relvars, relvars.len()).1.len() == 0 ==> tables_first(
            relvars,
            relvars.len(),
        ).1 =~= Seq::<DiagnosticView>::empty());
    }
}

/// A resolved catalog whose database is left alone is told why by an error.
pub proof fn law_stopping_is_reported(c: ResolvedCatalog, file: Option<Name>)
    requires
        c.plan is Some,
    ensures
        stepped(c, file) matches StepView::Finished(diagnostics) ==> any_error(diagnostics),
{
    let said = diagnostics_view(c.diagnostics@);
    let plan = c.plan->0;
    let relvars = plan.relvars@;
    let (tables, complaints) = tables_first(relvars, relvars.len());
    lemma_tables(relvars, relvars.len());
    match stepped(c, file) {
        StepView::Finished(d) => {
            if !any_error(said) {
                if plan.backend_kind == BackendKind::Sqlite && tables.len() < relvars.len() {
                    assert(d[said.len() as int] == complaints[0]);
                } else {
                    assert(d[d.len() - 1].severity == Severity::Error);
                }
            }
        },
        _ => {},
    }
}

} // verus!
