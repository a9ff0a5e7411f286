//! The rows that a relvar's initial value seeds its table with.

use crate::diag::{diagnostics_view, error_view, Diagnostic, DiagnosticView, Span};
use crate::literals::{char_of, is_scalar_value};
use crate::provision::schema::{
    columns_view, report, CatalogRelvar, ColKind, Column, ColumnView, Folded, InitCell, InitElement, Schema,
    SchemaView,
};
use crate::rel_expr::{Approx, Literal, LiteralView};
use crate::text::{
    bool_text, bool_word, hex_text, joined, join_texts, names_of, numeral, quoted, quoted_char,
    quoted_char_text, quoted_text, same_text, signed_decimal, signed_text, upper, upper_text, Name,
};
use vstd::prelude::*;

verus! {

/// A value of a seed row.
#[derive(Debug, PartialEq, Eq)]
pub enum SeedValue {
    Integer(i64),
    Text(String),
    Boolean(bool),
    Rational(i64, i64),
    Approximate(Approx),
    /// A character, as its Unicode scalar value.
    Character(u32),
}

/// A seed row: one value for each column.
pub type SeedRow = Vec<SeedValue>;

/// What a [`SeedValue`] stands for.
pub enum SeedView {
    Integer(int),
    Text(Seq<char>),
    Boolean(bool),
    Rational(int, int),
    Approximate { bits: u64, notation: Seq<char>, decimal: Seq<char> },
    Character(u32),
}

/// What a seed row stands for.
pub type RowView = Seq<SeedView>;

impl SeedValue {
    pub open spec fn view(&self) -> SeedView {
        match self {
            SeedValue::Integer(n) => SeedView::Integer(*n as int),
            SeedValue::Text(s) => SeedView::Text(s@),
            SeedValue::Boolean(b) => SeedView::Boolean(*b),
            SeedValue::Rational(n, d) => SeedView::Rational(*n as int, *d as int),
            SeedValue::Approximate(a) => SeedView::Approximate {
                bits: a.bits,
                notation: a.notation@,
                decimal: a.decimal@,
            },
            SeedValue::Character(c) => SeedView::Character(*c),
        }
    }
}

/// What a list of values stands for.
pub open spec fn row_view(s: Seq<SeedValue>) -> RowView {
    Seq::new(s.len(), |i: int| s[i]@)
}

/// What a list of rows stands for.
pub open spec fn rows_view(s: Seq<SeedRow>) -> Seq<RowView> {
    Seq::new(s.len(), |i: int| row_view(s[i]@))
}

/// What rows that may be absent stand for.
pub open spec fn maybe_rows(s: Option<Vec<SeedRow>>) -> Option<Seq<RowView>> {
    match s {
        Some(s) => Some(rows_view(s@)),
        None => None,
    }
}

/// The value of a literal in a column of that kind: an integer widens in a
/// rational column, every other literal needs the column of its own kind.
pub open spec fn coerced(l: LiteralView, kind: ColKind) -> Option<SeedView> {
    match (kind, l) {
        (ColKind::Rational, LiteralView::Integer(n)) => Some(SeedView::Rational(n, 1)),
        (ColKind::Integer, LiteralView::Integer(n)) => Some(SeedView::Integer(n)),
        (ColKind::Text, LiteralView::Text(s)) => Some(SeedView::Text(s)),
        (ColKind::Boolean, LiteralView::Boolean(b)) => Some(SeedView::Boolean(b)),
        (ColKind::Rational, LiteralView::Rational(n, d)) => Some(SeedView::Rational(n, d)),
        (ColKind::Approximate, LiteralView::Approximate { bits, notation, decimal }) => Some(
            SeedView::Approximate { bits, notation, decimal },
        ),
        (ColKind::Character, LiteralView::Character(c)) => Some(SeedView::Character(c)),
        _ => None,
    }
}

/// The value of a literal in a column of that kind.
pub fn coerce(lit: &Literal, kind: ColKind) -> (r: Option<SeedValue>)
    ensures
        coerced(lit@, kind) == match r {
            Some(v) => Some(v@),
            None => None::<SeedView>,
        },
{
    match (kind, lit) {
        (ColKind::Rational, Literal::Integer(n)) => Some(SeedValue::Rational(*n, 1)),
        (ColKind::Integer, Literal::Integer(n)) => Some(SeedValue::Integer(*n)),
        (ColKind::Text, Literal::Text(s)) => Some(SeedValue::Text(s.clone())),
        (ColKind::Boolean, Literal::Boolean(b)) => Some(SeedValue::Boolean(*b)),
        (ColKind::Rational, Literal::Rational(n, d)) => Some(SeedValue::Rational(*n, *d)),
        (ColKind::Approximate, Literal::Approximate(a)) => Some(
            SeedValue::Approximate(
                Approx {
                    bits: a.bits,
                    notation: a.notation.clone(),
                    decimal: a.decimal.clone(),
                },
            ),
        ),
        (ColKind::Character, Literal::Character(c)) => Some(SeedValue::Character(*c)),
        _ => None,
    }
}

/// Whether two values are one: approximate numbers by their bits.
pub open spec fn same_value(a: SeedView, b: SeedView) -> bool {
    match (a, b) {
        (SeedView::Approximate { bits: x, .. }, SeedView::Approximate { bits: y, .. }) => x == y,
        _ => a == b,
    }
}

/// Whether two rows hold the same values.
pub open spec fn same_row(a: RowView, b: RowView) -> bool {
    a.len() == b.len() && forall|i: int| 0 <= i < a.len() ==> same_value(#[trigger] a[i], b[i])
}

impl SeedValue {
    /// Whether two values are one.
    pub fn same(&self, other: &SeedValue) -> (r: bool)
        ensures
            r == same_value(self@, other@),
    {
        match (self, other) {
            (SeedValue::Integer(a), SeedValue::Integer(b)) => *a == *b,
            (SeedValue::Text(a), SeedValue::Text(b)) => same_text(a.as_str(), b.as_str()),
            (SeedValue::Boolean(a), SeedValue::Boolean(b)) => *a == *b,
            (SeedValue::Rational(a, c), SeedValue::Rational(b, d)) => *a == *b && *c == *d,
            (SeedValue::Approximate(a), SeedValue::Approximate(b)) => a.bits == b.bits,
            (SeedValue::Character(a), SeedValue::Character(b)) => *a == *b,
            _ => false,
        }
    }
}

/// Whether two rows hold the same values.
pub fn rows_same(a: &SeedRow, b: &SeedRow) -> (r: bool)
    ensures
        r == same_row(row_view(a@), row_view(b@)),
{
    if a.len() != b.len() {
        return false;
    }
    let mut i: usize = 0;
    while i < a.len()
        invariant
            i <= a.len(),
            a.len() == b.len(),
            forall|j: int|
                0 <= j < i ==> same_value(#[trigger] row_view(a@)[j], row_view(b@)[j]),
        decreases a.len() - i,
    {
        if !a[i].same(&b[i]) {
            assert(!same_value(row_view(a@)[i as int], row_view(b@)[i as int]));
            return false;
        }
        i += 1;
    }
    true
}

/// A value as a message writes it.
pub open spec fn value_word(v: SeedView) -> Seq<char> {
    match v {
        SeedView::Integer(n) => signed_decimal(n),
        SeedView::Text(s) => quoted(s),
        SeedView::Boolean(b) => bool_word(b),
        SeedView::Rational(n, d) => signed_decimal(n) + "/"@ + signed_decimal(d),
        SeedView::Approximate { decimal, .. } => decimal,
        SeedView::Character(c) => if is_scalar_value(c) {
            quoted_char(c as char)
        } else {
            "U+"@ + upper(numeral(c as nat, 16))
        },
    }
}

/// A value as a message writes it.
pub fn render_value(v: &SeedValue) -> (r: String)
    ensures
        r@ == value_word(v@),
{
    match v {
        SeedValue::Integer(n) => signed_text(*n),
        SeedValue::Text(s) => quoted_text(s.as_str()),
        SeedValue::Boolean(b) => bool_text(*b),
        SeedValue::Rational(n, d) => {
            let mut s = signed_text(*n);
            s.append("/");
            s.append(signed_text(*d).as_str());
            s
        },
        SeedValue::Approximate(a) => a.decimal.clone(),
        SeedValue::Character(c) => match char_of(*c) {
            Some(ch) => quoted_char_text(ch),
            None => {
                let mut s = "U+".to_owned();
                s.append(upper_text(hex_text(*c as u64).as_str()).as_str());
                s
            },
        },
    }
}

/// Each key column with its value as a message writes it.
pub open spec fn key_words(pk: Seq<Name>, key: RowView) -> Seq<Seq<char>> {
    Seq::new(
        if pk.len() <= key.len() {
            pk.len()
        } else {
            key.len()
        },
        |i: int| pk[i] + " = "@ + value_word(key[i]),
    )
}

/// A key as a message writes it: `column = value`, with commas between.
pub fn render_key(pk: &Vec<String>, key: &Vec<SeedValue>) -> (r: String)
    ensures
        r@ == joined(key_words(names_of(pk@), row_view(key@)), ", "@),
{
    let mut parts: Vec<String> = Vec::new();
    let mut i: usize = 0;
    let ghost words = key_words(names_of(pk@), row_view(key@));
    while i < pk.len() && i < key.len()
        invariant
            i <= pk.len(),
            i <= key.len(),
            parts.len() == i,
            words == key_words(names_of(pk@), row_view(key@)),
            forall|j: int| 0 <= j < i ==> (#[trigger] parts@[j])@ == words[j],
        decreases pk.len() - i,
    {
        let mut s = pk[i].clone();
        s.append(" = ");
        s.append(render_value(&key[i]).as_str());
        parts.push(s);
        assert(s@ == words[i as int]);
        i += 1;
    }
    assert(names_of(parts@) =~= words);
    join_texts(&parts, ", ")
}

/// The cell of a field: the last one of that name.
pub open spec fn field_of(fields: Seq<(String, InitCell)>, attr: Name) -> Option<InitCell>
    decreases fields.len(),
{
    if fields.len() == 0 {
        None
    } else if fields.last().0@ == attr {
        Some(fields.last().1)
    } else {
        field_of(fields.drop_last(), attr)
    }
}

fn find_field<'a>(fields: &'a Vec<(String, InitCell)>, attr: &str) -> (r: Option<&'a InitCell>)
    ensures
        field_of(fields@, attr@) == match r {
            Some(c) => Some(*c),
            None => None::<InitCell>,
        },
{
    let mut n: usize = fields.len();
    assert(fields@.take(n as int) =~= fields@);
    while n > 0
        invariant
            n <= fields.len(),
            field_of(fields@, attr@) == field_of(fields@.take(n as int), attr@),
        decreases n,
    {
        proof {
            let t = fields@.take(n as int);
            assert(t.last() == fields@[n - 1]);
            assert(t.drop_last() =~= fields@.take(n - 1));
        }
        if same_text(fields[n - 1].0.as_str(), attr) {
            return Some(&fields[n - 1].1);
        }
        n -= 1;
    }
    None
}

/// The value of an attribute in a tuple, or the complaint about it.
pub open spec fn cell_value(
    relvar: Name,
    attr: Name,
    tuple: Span,
    fields: Seq<(String, InitCell)>,
    kind: ColKind,
) -> Result<SeedView, DiagnosticView> {
    match field_of(fields, attr) {
        None => Err(
            error_view(
                tuple,
                "PV0003"@,
                "relvar `"@ + relvar + "`: INIT tuple is missing attribute `"@ + attr + "`"@,
            ),
        ),
        Some(cell) => match cell.folded {
            Folded::Scalar(lit) => match coerced(lit@, kind) {
                Some(v) => Ok(v),
                None => Err(
                    error_view(
                        cell.span,
                        "PV0003"@,
                        "relvar `"@ + relvar + "`: INIT value for `"@ + attr
                            + "` does not match its column type"@,
                    ),
                ),
            },
            Folded::NotConstant => Err(
                error_view(
                    cell.span,
                    "PV0003"@,
                    "relvar `"@ + relvar + "`: INIT value for `"@ + attr
                        + "` is not a constant scalar; only constant expressions can be seeded"@,
                ),
            ),
            Folded::Failed(why) => Err(
                error_view(
                    cell.span,
                    "PV0004"@,
                    "relvar `"@ + relvar + "`: evaluating the INIT value for `"@ + attr
                        + "` failed: "@ + why@,
                ),
            ),
        },
    }
}

/// A message about an attribute of a relvar.
fn say(relvar: &str, middle: &str, attr: &str, end: &str) -> (r: String)
    ensures
        r@ == "relvar `"@ + relvar@ + middle@ + attr@ + end@,
{
    let mut s = "relvar `".to_owned();
    s.append(relvar);
    s.append(middle);
    s.append(attr);
    s.append(end);
    s
}

fn read_cell(
    relvar: &str,
    attr: &str,
    tuple: Span,
    fields: &Vec<(String, InitCell)>,
    kind: ColKind,
) -> (r: Result<SeedValue, Diagnostic>)
    ensures
        cell_value(relvar@, attr@, tuple, fields@, kind) == match r {
            Ok(v) => Ok::<SeedView, DiagnosticView>(v@),
            Err(d) => Err(d@),
        },
{
    match find_field(fields, attr) {
        None => Err(
            Diagnostic::error(
                tuple,
                "PV0003",
                say(relvar, "`: INIT tuple is missing attribute `", attr, "`"),
            ),
        ),
        Some(cell) => match &cell.folded {
            Folded::Scalar(lit) => match coerce(lit, kind) {
                Some(v) => Ok(v),
                None => Err(
                    Diagnostic::error(
                        cell.span,
                        "PV0003",
                        say(
                            relvar,
                            "`: INIT value for `",
                            attr,
                            "` does not match its column type",
                        ),
                    ),
                ),
            },
            Folded::NotConstant => Err(
                Diagnostic::error(
                    cell.span,
                    "PV0003",
                    say(
                        relvar,
                        "`: INIT value for `",
                        attr,
                        "` is not a constant scalar; only constant expressions can be seeded",
                    ),
                ),
            ),
            Folded::Failed(why) => {
                let mut s = say(
                    relvar,
                    "`: evaluating the INIT value for `",
                    attr,
                    "` failed: ",
                );
                s.append(why.as_str());
                Err(Diagnostic::error(cell.span, "PV0004", s))
            },
        },
    }
}

/// The values of a tuple in the first `n` columns, and a complaint about each
/// that it has none for.
pub open spec fn row_first(
    r: CatalogRelvar,
    columns: Seq<ColumnView>,
    tuple: Span,
    fields: Seq<(String, InitCell)>,
    n: nat,
) -> (RowView, Seq<DiagnosticView>)
    decreases n,
{
    if n == 0 {
        (Seq::empty(), Seq::empty())
    } else {
        let (row, complaints) = row_first(r, columns, tuple, fields, (n - 1) as nat);
        match cell_value(r.name@, r.columns@[n - 1].0@, tuple, fields, columns[n - 1].kind) {
            Ok(v) => (row.push(v), complaints),
            Err(d) => (row, complaints.push(d)),
        }
    }
}

fn read_row(
    relvar: &CatalogRelvar,
    columns: &Vec<Column>,
    tuple: Span,
    fields: &Vec<(String, InitCell)>,
    diagnostics: &mut Vec<Diagnostic>,
) -> (r: SeedRow)
    requires
        columns@.len() <= relvar.columns@.len(),
    ensures
        ({
            let (row, complaints) = row_first(
                *relvar,
                columns_view(columns@),
                tuple,
                fields@,
                columns@.len(),
            );
            &&& row_view(r@) == row
            &&& diagnostics_view(final(diagnostics)@) == diagnostics_view(old(diagnostics)@)
                + complaints
        }),
{
    let ghost was = diagnostics_view(diagnostics@);
    let ghost cs = columns_view(columns@);
    let mut row: SeedRow = Vec::new();
    let mut i: usize = 0;
    assert(row_view(row@) =~= Seq::<SeedView>::empty());
    assert(was =~= was + Seq::<DiagnosticView>::empty());
    while i < columns.len()
        invariant
            i <= columns.len() <= relvar.columns.len(),
            cs == columns_view(columns@),
            row_view(row@) == row_first(*relvar, cs, tuple, fields@, i as nat).0,
            diagnostics_view(diagnostics@) == was + row_first(
                *relvar,
                cs,
                tuple,
                fields@,
                i as nat,
            ).1,
        decreases columns.len() - i,
    {
        let ghost before = row_view(row@);
        let ghost said = row_first(*relvar, cs, tuple, fields@, i as nat).1;
        let attr = relvar.columns[i].0.as_str();
        match read_cell(relvar.name.as_str(), attr, tuple, fields, columns[i].kind) {
            Ok(v) => {
                let ghost seen = v@;
                row.push(v);
                assert(row_view(row@) =~= before.push(seen));
            },
            Err(d) => {
                let ghost seen = d@;
                report(diagnostics, d);
                assert((was + said).push(seen) =~= was + said.push(seen));
            },
        }
        i += 1;
    }
    row
}

/// The complaint about an element that is not a tuple.
pub open spec fn not_a_tuple(relvar: Name, span: Span) -> DiagnosticView {
    error_view(
        span,
        "PV0002"@,
        "relvar `"@ + relvar + "`: each INIT element must be a tuple literal"@,
    )
}

/// The rows of the first `n` elements, each with the place of its tuple, and
/// the complaints about elements that make none.
pub open spec fn tuples_first(
    r: CatalogRelvar,
    columns: Seq<ColumnView>,
    elements: Seq<InitElement>,
    n: nat,
) -> (Seq<(RowView, Span)>, Seq<DiagnosticView>)
    decreases n,
{
    if n == 0 {
        (Seq::empty(), Seq::empty())
    } else {
        let (rows, complaints) = tuples_first(r, columns, elements, (n - 1) as nat);
        let e = elements[n - 1];
        match e.fields {
            None => (rows, complaints.push(not_a_tuple(r.name@, e.span))),
            Some(fields) => {
                let (row, more) = row_first(r, columns, e.span, fields@, columns.len());
                if more.len() == 0 {
                    (rows.push((row, e.span)), complaints)
                } else {
                    (rows, complaints + more)
                }
            },
        }
    }
}

/// What a list of rows with their places stands for.
pub open spec fn tuples_view(s: Seq<(SeedRow, Span)>) -> Seq<(RowView, Span)> {
    Seq::new(s.len(), |i: int| (row_view(s[i].0@), s[i].1))
}

fn read_tuples(
    relvar: &CatalogRelvar,
    columns: &Vec<Column>,
    elements: &Vec<InitElement>,
    diagnostics: &mut Vec<Diagnostic>,
) -> (r: Vec<(SeedRow, Span)>)
    requires
        columns@.len() <= relvar.columns@.len(),
    ensures
        ({
            let (rows, complaints) = tuples_first(
                *relvar,
                columns_view(columns@),
                elements@,
                elements@.len(),
            );
            &&& tuples_view(r@) == rows
            &&& diagnostics_view(final(diagnostics)@) == diagnostics_view(old(diagnostics)@)
                + complaints
        }),
{
    let ghost was = diagnostics_view(diagnostics@);
    let ghost cs = columns_view(columns@);
    let mut rows: Vec<(SeedRow, Span)> = Vec::new();
    let mut i: usize = 0;
    assert(tuples_view(rows@) =~= Seq::<(RowView, Span)>::empty());
    assert(was =~= was + Seq::<DiagnosticView>::empty());
    while i < elements.len()
        invariant
            i <= elements.len(),
            columns@.len() <= relvar.columns@.len(),
            cs == columns_view(columns@),
            tuples_view(rows@) == tuples_first(*relvar, cs, elements@, i as nat).0,
            diagnostics_view(diagnostics@) == was + tuples_first(
                *relvar,
                cs,
                elements@,
                i as nat,
            ).1,
        decreases elements.len() - i,
    {
        let ghost before = tuples_view(rows@);
        let ghost said = tuples_first(*relvar, cs, elements@, i as nat).1;
        let span = elements[i].span;
        match &elements[i].fields {
            None => {
                let mut s = "relvar `".to_owned();
                s.append(relvar.name.as_str());
                s.append("`: each INIT element must be a tuple literal");
                let d = Diagnostic::error(span, "PV0002", s);
                let ghost seen = d@;
                report(diagnostics, d);
                assert((was + said).push(seen) =~= was + said.push(seen));
            },
            Some(fields) => {
                let count: usize = diagnostics.len();
                let ghost more = row_first(*relvar, cs, span, fields@, cs.len()).1;
                assert(diagnostics_view(diagnostics@).len() == count);
                let row = read_row(relvar, columns, span, fields, diagnostics);
                assert(diagnostics_view(diagnostics@).len() == diagnostics@.len());
                assert((was + said) + more =~= was + (said + more));
                if diagnostics.len() == count {
                    assert(said + more =~= said);
                    let ghost seen = (row_view(row@), span);
                    rows.push((row, span));
                    assert(tuples_view(rows@) =~= before.push(seen));
                }
            },
        }
        i += 1;
    }
    rows
}

/// The first column from position `from` on with that name.
pub open spec fn position_from(columns: Seq<ColumnView>, name: Name, from: nat) -> Option<nat>
    decreases columns.len() - from,
{
    if from >= columns.len() {
        None
    } else if columns[from as int].name == name {
        Some(from)
    } else {
        position_from(columns, name, from + 1)
    }
}

/// The positions of the first `n` key columns that the table has.
pub open spec fn key_positions(columns: Seq<ColumnView>, pk: Seq<Name>, n: nat) -> Seq<int>
    decreases n,
{
    if n == 0 {
        Seq::empty()
    } else {
        let before = key_positions(columns, pk, (n - 1) as nat);
        match position_from(columns, pk[n - 1], 0) {
            Some(p) => before.push(p as int),
            None => before,
        }
    }
}

/// What a list of positions stands for.
pub open spec fn positions_view(s: Seq<usize>) -> Seq<int> {
    Seq::new(s.len(), |i: int| s[i] as int)
}

fn position(columns: &Vec<Column>, name: &str) -> (r: Option<usize>)
    ensures
        position_from(columns_view(columns@), name@, 0) == match r {
            Some(p) => Some(p as nat),
            None => None::<nat>,
        },
        r is Some ==> r->0 < columns.len(),
{
    let mut i: usize = 0;
    while i < columns.len()
        invariant
            i <= columns.len(),
            position_from(columns_view(columns@), name@, 0) == position_from(
                columns_view(columns@),
                name@,
                i as nat,
            ),
        decreases columns.len() - i,
    {
        if same_text(columns[i].name.as_str(), name) {
            return Some(i);
        }
        i += 1;
    }
    None
}

fn find_positions(columns: &Vec<Column>, pk: &Vec<String>) -> (r: Vec<usize>)
    ensures
        positions_view(r@) == key_positions(columns_view(columns@), names_of(pk@), pk@.len()),
        forall|i: int| 0 <= i < r.len() ==> #[trigger] r@[i] < columns.len(),
{
    let ghost cs = columns_view(columns@);
    let mut r: Vec<usize> = Vec::new();
    let mut i: usize = 0;
    assert(positions_view(r@) =~= Seq::<int>::empty());
    while i < pk.len()
        invariant
            i <= pk.len(),
            cs == columns_view(columns@),
            positions_view(r@) == key_positions(cs, names_of(pk@), i as nat),
            forall|i: int| 0 <= i < r.len() ==> #[trigger] r@[i] < columns.len(),
        decreases pk.len() - i,
    {
        let ghost was = positions_view(r@);
        match position(columns, pk[i].as_str()) {
            Some(p) => {
                r.push(p);
                assert(positions_view(r@) =~= was.push(p as int));
            },
            None => {},
        }
        i += 1;
    }
    r
}

/// The values of a row at the key positions.
pub open spec fn key_of(row: RowView, positions: Seq<int>) -> RowView {
    Seq::new(positions.len(), |i: int| row[positions[i]])
}

/// The last of the first `n` rows with the same key.
pub open spec fn with_key(
    rows: Seq<RowView>,
    row: RowView,
    positions: Seq<int>,
    n: nat,
) -> Option<RowView>
    decreases n,
{
    if n == 0 {
        None
    } else if same_row(key_of(rows[n - 1], positions), key_of(row, positions)) {
        Some(rows[n - 1])
    } else {
        with_key(rows, row, positions, (n - 1) as nat)
    }
}

/// The complaint about a tuple that has the key of an earlier one.
pub open spec fn key_taken(
    relvar: Name,
    span: Span,
    pk: Seq<Name>,
    key: RowView,
) -> DiagnosticView {
    error_view(
        span,
        "PV0005"@,
        "relvar `"@ + relvar + "`: two INIT tuples share the key "@ + joined(
            key_words(pk, key),
            ", "@,
        ) + " but differ in a non-key attribute"@,
    )
}

/// The first `n` rows without those that repeat an earlier one, and a complaint
/// about each that has the key of an earlier one but is not the same.
pub open spec fn kept_first(
    relvar: Name,
    pk: Seq<Name>,
    positions: Seq<int>,
    tuples: Seq<(RowView, Span)>,
    n: nat,
) -> (Seq<RowView>, Seq<DiagnosticView>)
    decreases n,
{
    if n == 0 {
        (Seq::empty(), Seq::empty())
    } else {
        let (rows, complaints) = kept_first(relvar, pk, positions, tuples, (n - 1) as nat);
        let (row, span) = tuples[n - 1];
        match with_key(rows, row, positions, rows.len()) {
            None => (rows.push(row), complaints),
            Some(earlier) => if same_row(earlier, row) {
                (rows, complaints)
            } else {
                (rows, complaints.push(key_taken(relvar, span, pk, key_of(row, positions))))
            },
        }
    }
}

/// The values of a row at the key positions.
fn read_key(row: &SeedRow, positions: &Vec<usize>) -> (r: Vec<SeedValue>)
    requires
        forall|i: int| 0 <= i < positions.len() ==> #[trigger] positions@[i] < row.len(),
    ensures
        row_view(r@) == key_of(row_view(row@), positions_view(positions@)),
{
    let mut r: Vec<SeedValue> = Vec::new();
    let mut i: usize = 0;
    while i < positions.len()
        invariant
            i <= positions.len(),
            r.len() == i,
            forall|i: int| 0 <= i < positions.len() ==> #[trigger] positions@[i] < row.len(),
            forall|j: int| 0 <= j < i ==> (#[trigger] r@[j])@ == row@[positions@[j] as int]@,
        decreases positions.len() - i,
    {
        r.push(row[positions[i]].clone());
        i += 1;
    }
    assert(row_view(r@) =~= key_of(row_view(row@), positions_view(positions@)));
    r
}

impl Clone for SeedValue {
    fn clone(&self) -> (r: Self)
        ensures
            r@ == self@,
    {
        match self {
            SeedValue::Integer(n) => SeedValue::Integer(*n),
            SeedValue::Text(s) => SeedValue::Text(s.clone()),
            SeedValue::Boolean(b) => SeedValue::Boolean(*b),
            SeedValue::Rational(n, d) => SeedValue::Rational(*n, *d),
            SeedValue::Approximate(a) => SeedValue::Approximate(
                Approx {
                    bits: a.bits,
                    notation: a.notation.clone(),
                    decimal: a.decimal.clone(),
                },
            ),
            SeedValue::Character(c) => SeedValue::Character(*c),
        }
    }
}

/// The last row with the same key.
fn find_key<'a>(
    rows: &'a Vec<SeedRow>,
    row: &SeedRow,
    positions: &Vec<usize>,
) -> (r: Option<&'a SeedRow>)
    requires
        forall|i: int| 0 <= i < positions.len() ==> #[trigger] positions@[i] < row.len(),
        forall|j: int| 0 <= j < rows.len() ==> (#[trigger] rows@[j]).len() == row.len(),
    ensures
        with_key(
            rows_view(rows@),
            row_view(row@),
            positions_view(positions@),
            rows@.len(),
        ) == match r {
            Some(found) => Some(row_view(found@)),
            None => None::<RowView>,
        },
{
    let key = read_key(row, positions);
    let mut n: usize = rows.len();
    let ghost all = rows_view(rows@);
    let ghost ps = positions_view(positions@);
    let ghost this = row_view(row@);
    while n > 0
        invariant
            n <= rows.len(),
            all == rows_view(rows@),
            ps == positions_view(positions@),
            this == row_view(row@),
            row_view(key@) == key_of(this, ps),
            forall|i: int| 0 <= i < positions.len() ==> #[trigger] positions@[i] < row.len(),
            forall|j: int| 0 <= j < rows.len() ==> (#[trigger] rows@[j]).len() == row.len(),
            with_key(all, this, ps, rows@.len()) == with_key(all, this, ps, n as nat),
        decreases n,
    {
        assert(rows@[n - 1].len() == row.len());
        let other = read_key(&rows[n - 1], positions);
        assert(all[n - 1] == row_view(rows@[n - 1]@));
        if rows_same(&other, &key) {
            return Some(&rows[n - 1]);
        }
        n -= 1;
    }
    None
}

fn keep_rows(
    relvar: &str,
    pk: &Vec<String>,
    positions: &Vec<usize>,
    tuples: Vec<(SeedRow, Span)>,
    width: usize,
    diagnostics: &mut Vec<Diagnostic>,
) -> (r: Vec<SeedRow>)
    requires
        forall|i: int| 0 <= i < positions.len() ==> #[trigger] positions@[i] < width,
        forall|j: int| 0 <= j < tuples.len() ==> (#[trigger] tuples@[j]).0.len() == width,
    ensures
        ({
            let (rows, complaints) = kept_first(
                relvar@,
                names_of(pk@),
                positions_view(positions@),
                tuples_view(tuples@),
                tuples@.len(),
            );
            &&& rows_view(r@) == rows
            &&& diagnostics_view(final(diagnostics)@) == diagnostics_view(old(diagnostics)@)
                + complaints
        }),
{
    let ghost was = diagnostics_view(diagnostics@);
    let ghost ps = positions_view(positions@);
    let ghost ts = tuples_view(tuples@);
    let ghost ks = names_of(pk@);
    let mut rows: Vec<SeedRow> = Vec::new();
    let mut i: usize = 0;
    assert(rows_view(rows@) =~= Seq::<RowView>::empty());
    assert(was =~= was + Seq::<DiagnosticView>::empty());
    while i < tuples.len()
        invariant
            i <= tuples.len(),
            ps == positions_view(positions@),
            ts == tuples_view(tuples@),
            ks == names_of(pk@),
            forall|i: int| 0 <= i < positions.len() ==> #[trigger] positions@[i] < width,
            forall|j: int| 0 <= j < tuples.len() ==> (#[trigger] tuples@[j]).0.len() == width,
            forall|j: int| 0 <= j < rows.len() ==> (#[trigger] rows@[j]).len() == width,
            rows_view(rows@) == kept_first(relvar@, ks, ps, ts, i as nat).0,
            diagnostics_view(diagnostics@) == was + kept_first(relvar@, ks, ps, ts, i as nat).1,
        decreases tuples.len() - i,
    {
        let ghost before = rows_view(rows@);
        let ghost said = kept_first(relvar@, ks, ps, ts, i as nat).1;
        let row = &tuples[i].0;
        let span = tuples[i].1;
        assert(tuples@[i as int].0.len() == width);
        assert(ts[i as int] == (row_view(row@), span));
        assert(before.len() == rows@.len());
        match find_key(&rows, row, positions) {
            None => {
                let copy = copy_row(row);
                let ghost seen = row_view(copy@);
                assert(seen.len() == copy@.len() && row_view(row@).len() == row@.len());
                rows.push(copy);
                assert(rows_view(rows@) =~= before.push(seen));
            },
            Some(earlier) => {
                if !rows_same(earlier, row) {
                    let key = read_key(row, positions);
                    let mut s = "relvar `".to_owned();
                    s.append(relvar);
                    s.append("`: two INIT tuples share the key ");
                    s.append(render_key(pk, &key).as_str());
                    s.append(" but differ in a non-key attribute");
                    let d = Diagnostic::error(span, "PV0005", s);
                    let ghost seen = d@;
                    report(diagnostics, d);
                    assert((was + said).push(seen) =~= was + said.push(seen));
                }
            },
        }
        i += 1;
    }
    rows
}

/// A copy of a row.
pub fn copy_row(row: &SeedRow) -> (r: SeedRow)
    ensures
        row_view(r@) == row_view(row@),
{
    let mut r: SeedRow = Vec::new();
    let mut i: usize = 0;
    while i < row.len()
        invariant
            i <= row.len(),
            r.len() == i,
            forall|j: int| 0 <= j < i ==> (#[trigger] r@[j])@ == row@[j]@,
        decreases row.len() - i,
    {
        r.push(row[i].clone());
        i += 1;
    }
    assert(row_view(r@) =~= row_view(row@));
    r
}

/// The complaint about an initial value that is not a relation literal.
pub open spec fn not_a_relation(relvar: Name, span: Span) -> DiagnosticView {
    error_view(
        span,
        "PV0002"@,
        "relvar `"@ + relvar
            + "`: INIT value must be a relation literal `Relation { \u{2026} }` to be seeded; other constant relation forms are not yet evaluable"@,
    )
}

/// The rows that seed a relvar's table; none with what stands in the way.
pub open spec fn seeded(r: CatalogRelvar, s: SchemaView) -> Result<
    Seq<RowView>,
    Seq<DiagnosticView>,
> {
    match r.init {
        None => Ok(Seq::empty()),
        Some(init) => match init.elements {
            None => Err(seq![not_a_relation(r.name@, init.span)]),
            Some(elements) => {
                let (tuples, complaints) = tuples_first(r, s.columns, elements@, elements@.len());
                if complaints.len() > 0 {
                    Err(complaints)
                } else {
                    let positions = key_positions(s.columns, s.pk, s.pk.len());
                    let (rows, complaints) = kept_first(
                        r.name@,
                        s.pk,
                        positions,
                        tuples,
                        tuples.len(),
                    );
                    if complaints.len() > 0 {
                        Err(complaints)
                    } else {
                        Ok(rows)
                    }
                }
            },
        },
    }
}

/// A tuple that is read without a complaint has a value for each column.
proof fn lemma_row_width(
    r: CatalogRelvar,
    columns: Seq<ColumnView>,
    tuple: Span,
    fields: Seq<(String, InitCell)>,
    n: nat,
)
    ensures
        ({
            let (row, complaints) = row_first(r, columns, tuple, fields, n);
            row.len() + complaints.len() == n
        }),
    decreases n,
{
    if n > 0 {
        lemma_row_width(r, columns, tuple, fields, (n - 1) as nat);
    }
}

proof fn lemma_tuples_width(
    r: CatalogRelvar,
    columns: Seq<ColumnView>,
    elements: Seq<InitElement>,
    n: nat,
)
    ensures
        ({
            let tuples = tuples_first(r, columns, elements, n).0;
            forall|j: int| 0 <= j < tuples.len() ==> (#[trigger] tuples[j]).0.len() == columns.len()
        }),
    decreases n,
{
    if n > 0 {
        let before = tuples_first(r, columns, elements, (n - 1) as nat).0;
        let tuples = tuples_first(r, columns, elements, n).0;
        lemma_tuples_width(r, columns, elements, (n - 1) as nat);
        match elements[n - 1].fields {
            Some(fields) => {
                lemma_row_width(r, columns, elements[n - 1].span, fields@, columns.len());
            },
            None => {},
        }
        assert forall|j: int| 0 <= j < tuples.len() implies (#[trigger] tuples[j]).0.len()
            == columns.len() by {
            if j < before.len() {
                assert(tuples[j] == before[j]);
            }
        }
    }
}

/// The rows that seed a relvar's table, in the order of their first tuples.
/// What stands in the way is added to the diagnostics.
pub fn build_rows(
    relvar: &CatalogRelvar,
    schema: &Schema,
    diagnostics: &mut Vec<Diagnostic>,
) -> (r: Option<Vec<SeedRow>>)
    requires
        schema.columns@.len() <= relvar.columns@.len(),
    ensures
        match seeded(*relvar, schema@) {
            Ok(rows) => {
                &&& maybe_rows(r) == Some(rows)
                &&& diagnostics_view(final(diagnostics)@) == diagnostics_view(old(diagnostics)@)
            },
            Err(complaints) => {
                &&& r is None
                &&& diagnostics_view(final(diagnostics)@) == diagnostics_view(old(diagnostics)@)
                    + complaints
            },
        },
{
    let ghost was = diagnostics_view(diagnostics@);
    let init = match &relvar.init {
        Some(init) => init,
        None => {
            let none: Vec<SeedRow> = Vec::new();
            assert(rows_view(none@) =~= Seq::<RowView>::empty());
            return Some(none);
        },
    };
    let elements = match &init.elements {
        Some(elements) => elements,
        None => {
            let mut s = "relvar `".to_owned();
            s.append(relvar.name.as_str());
            s.append(
                "`: INIT value must be a relation literal `Relation { \u{2026} }` to be seeded; other constant relation forms are not yet evaluable",
            );
            let d = Diagnostic::error(init.span, "PV0002", s);
            let ghost seen = d@;
            report(diagnostics, d);
            assert(was.push(seen) =~= was + seq![seen]);
            return None;
        },
    };
    let count: usize = diagnostics.len();
    assert(was.len() == count);
    let tuples = read_tuples(relvar, &schema.columns, elements, diagnostics);
    assert(diagnostics_view(diagnostics@).len() == diagnostics@.len());
    if diagnostics.len() != count {
        return None;
    }
    proof {
        assert(diagnostics_view(diagnostics@) =~= was);
        lemma_tuples_width(*relvar, schema@.columns, elements@, elements@.len());
        let ts = tuples_view(tuples@);
        assert forall|j: int| 0 <= j < tuples.len() implies (#[trigger] tuples@[j]).0.len()
            == schema.columns.len() by {
            assert(ts[j].0.len() == schema@.columns.len());
        }
        assert(ts.len() == tuples@.len());
    }
    let positions = find_positions(&schema.columns, &schema.pk);
    let rows = keep_rows(
        relvar.name.as_str(),
        &schema.pk,
        &positions,
        tuples,
        schema.columns.len(),
        diagnostics,
    );
    assert(diagnostics_view(diagnostics@).len() == diagnostics@.len());
    if diagnostics.len() != count {
        return None;
    }
    assert(diagnostics_view(diagnostics@) =~= was);
    Some(rows)
}

} // verus!
