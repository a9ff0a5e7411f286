//! Provisioning a database from its catalog.

use coddl::diag::{Diagnostic, Severity, Span};
use coddl::lower::program::BackendKind;
use coddl::provision::failure::{ProvisionError, SchemaDiff};
use coddl::provision::rows::{build_rows, coerce, render_key, render_value, SeedRow, SeedValue};
use coddl::provision::schema::{
    build_schema, type_to_colkind, CatalogRelvar, ColKind, Column, Folded, InitCell, InitElement,
    InitValue,
};
use coddl::provision::{
    file_variable, finish, provision_catalog, CatalogPlan, ProvisionOutcome, ProvisionTable, Report,
    ResolvedCatalog, Step, TableReport,
};
use coddl::rel_expr::{Approx, Literal};
use coddl::types::{Heading, Type};

// ── catalogs ──────────────────────────────────────────────────────────

fn span(start: u32) -> Span {
    Span {
        file: 0,
        start,
        end: start + 1,
    }
}

fn text(s: &str) -> Literal {
    Literal::Text(s.to_string())
}

fn number(n: i64) -> Literal {
    Literal::Integer(n)
}

fn cell(start: u32, folded: Folded) -> InitCell {
    InitCell {
        span: span(start),
        folded,
    }
}

fn tuple(start: u32, fields: Vec<(&str, Literal)>) -> InitElement {
    let fields = fields
        .into_iter()
        .map(|(name, lit)| (name.to_string(), cell(start + 1, Folded::Scalar(lit))))
        .collect();
    InitElement {
        span: span(start),
        fields: Some(fields),
    }
}

fn relation(elements: Vec<InitElement>) -> Option<InitValue> {
    Some(InitValue {
        span: span(1),
        elements: Some(elements),
    })
}

/// A relvar with a table of its name in lower case, and columns named like the
/// attributes.
fn relvar(
    name: &str,
    attrs: Vec<(&str, Type)>,
    key: Vec<&str>,
    init: Option<InitValue>,
) -> CatalogRelvar {
    let mut columns: Vec<(String, String)> = attrs
        .iter()
        .map(|(a, _)| (a.to_string(), a.to_string()))
        .collect();
    columns.sort();
    CatalogRelvar {
        name: name.to_string(),
        heading: Heading::new(
            attrs
                .into_iter()
                .map(|(a, t)| (a.to_string(), t))
                .collect(),
        ),
        table_name: name.to_lowercase(),
        columns,
        keys: vec![key.into_iter().map(|k| k.to_string()).collect()],
        init,
    }
}

fn catalog(database: &str, relvars: Vec<CatalogRelvar>) -> ResolvedCatalog {
    ResolvedCatalog {
        plan: Some(CatalogPlan {
            database_name: database.to_string(),
            backend_kind: BackendKind::Sqlite,
            relvars,
            db_file_default: Some(format!("{database}.sqlite")),
        }),
        diagnostics: vec![],
    }
}

fn error_codes(diagnostics: &[Diagnostic]) -> Vec<&str> {
    diagnostics
        .iter()
        .filter(|d| d.severity == Severity::Error)
        .map(|d| d.code.as_str())
        .collect()
}

// ── a database in memory ──────────────────────────────────────────────

#[derive(Clone, Debug, PartialEq)]
enum Object {
    View,
    Table {
        columns: Vec<String>,
        rows: Vec<Vec<String>>,
    },
}

#[derive(Clone, Debug, Default, PartialEq)]
struct Database {
    objects: Vec<(String, Object)>,
}

impl Database {
    fn reconcile(&mut self, tables: &[ProvisionTable]) -> Result<Report, ProvisionError> {
        let mut next = self.clone();
        let mut report = Report { tables: vec![] };
        for t in tables {
            let name = &t.schema.table;
            let declared: Vec<String> = t.schema.columns.iter().map(|c| c.name.clone()).collect();
            let found = next.objects.iter().position(|o| o.0 == *name);
            let created = found.is_none();
            match found.map(|i| next.objects[i].1.clone()) {
                Some(Object::View) => {
                    return Err(ProvisionError::NotATable {
                        table: name.clone(),
                        actual_type: "view".to_string(),
                    })
                }
                Some(Object::Table { columns, .. }) if columns != declared => {
                    let extra = columns.iter().filter(|c| !declared.contains(c));
                    return Err(ProvisionError::SchemaMismatch {
                        table: name.clone(),
                        diff: SchemaDiff {
                            missing_columns: vec![],
                            extra_columns: extra.cloned().collect(),
                            kind_mismatches: vec![],
                            not_null_mismatches: vec![],
                            pk_mismatch: None,
                        },
                    });
                }
                _ => {}
            }
            next.objects.retain(|o| o.0 != *name);
            let rows: Vec<Vec<String>> = t
                .rows
                .iter()
                .map(|r| r.iter().map(render_value).collect())
                .collect();
            report.tables.push(TableReport {
                table: name.clone(),
                created,
                rows_inserted: rows.len(),
            });
            next.objects.push((
                name.clone(),
                Object::Table {
                    columns: declared,
                    rows,
                },
            ));
        }
        *self = next;
        Ok(report)
    }

    /// The value in that column of the row with that key.
    fn value(&self, table: &str, key: &str, column: &str) -> String {
        let (_, object) = self.objects.iter().find(|o| o.0 == table).unwrap();
        let Object::Table { columns, rows } = object else {
            panic!("not a table");
        };
        let at = columns.iter().position(|c| c == column).unwrap();
        let quoted = format!("{key:?}");
        let row = rows.iter().find(|r| r.contains(&quoted)).unwrap();
        row[at].clone()
    }
}

/// Provisions the database in memory; the file that was written is returned
/// too.
fn provision(
    catalog: ResolvedCatalog,
    file: Option<&str>,
    database: &mut Database,
) -> (ProvisionOutcome, Option<String>) {
    match provision_catalog(catalog, file.map(|f| f.to_string())) {
        Step::Finished(outcome) => (outcome, None),
        Step::Reconcile {
            path,
            tables,
            diagnostics,
        } => {
            let result = database.reconcile(&tables);
            (finish(diagnostics, result), Some(path))
        }
    }
}

#[test]
fn seeds_a_suppliers_shaped_catalog_and_reopens_it() {
    let s = relvar(
        "S",
        vec![("sno", Type::Text), ("status", Type::Integer)],
        vec!["sno"],
        relation(vec![
            tuple(10, vec![("sno", text("S1")), ("status", number(20))]),
            tuple(20, vec![("sno", text("S2")), ("status", number(10))]),
            tuple(30, vec![("sno", text("S3")), ("status", number(30))]),
        ]),
    );
    let p = relvar(
        "P",
        vec![("pno", Type::Text), ("weight", Type::Rational)],
        vec!["pno"],
        relation(vec![
            tuple(40, vec![("pno", text("P1")), ("weight", Literal::Rational(12, 1))]),
            tuple(50, vec![("pno", text("P2")), ("weight", Literal::Rational(17, 1))]),
        ]),
    );
    let sp = relvar(
        "SP",
        vec![("sno", Type::Text), ("pno", Type::Text), ("qty", Type::Integer)],
        vec!["sno", "pno"],
        relation(vec![
            tuple(60, vec![("sno", text("S1")), ("pno", text("P1")), ("qty", number(300))]),
            tuple(70, vec![("sno", text("S1")), ("pno", text("P2")), ("qty", number(200))]),
        ]),
    );
    let mut db = Database::default();
    let (out, _) = provision(catalog("sphappy", vec![s, p, sp]), None, &mut db);
    assert!(
        error_codes(&out.diagnostics).is_empty(),
        "unexpected diagnostics: {:?}",
        out.diagnostics
    );
    let report = out.report.expect("a report on success");
    // Every table is freshly created; counts match the (deduped) INIT.
    assert!(report.tables.iter().all(|t| t.created));
    let count = |table: &str| {
        let t = report.tables.iter().find(|t| t.table == table).unwrap();
        t.rows_inserted
    };
    assert_eq!(count("s"), 3);
    assert_eq!(count("p"), 2);
    assert_eq!(count("sp"), 2);

    assert_eq!(db.value("p", "P1", "weight"), "12/1");
    assert_eq!(db.value("s", "S2", "status"), "10");
}

#[test]
fn evaluates_constant_init_expressions() {
    // The values are those of `6 * 6`, `-5`, `-12.0` and plain literals; an
    // Integer widens in the Rational column `r`.
    let e = relvar(
        "E",
        vec![("id", Type::Text), ("n", Type::Integer), ("r", Type::Rational)],
        vec!["id"],
        relation(vec![
            tuple(10, vec![("id", text("a")), ("n", number(6 * 6)), ("r", number(3))]),
            tuple(20, vec![("id", text("b")), ("n", number(-5)), ("r", number(10))]),
        ]),
    );
    let f = relvar(
        "F",
        vec![("id", Type::Text), ("w", Type::Rational)],
        vec!["id"],
        relation(vec![
            tuple(30, vec![("id", text("a")), ("w", Literal::Rational(-12, 1))]),
            tuple(40, vec![("id", text("b")), ("w", Literal::Rational(17, 1))]),
        ]),
    );
    let mut db = Database::default();
    let (out, _) = provision(catalog("speval", vec![e, f]), None, &mut db);
    assert!(
        error_codes(&out.diagnostics).is_empty(),
        "unexpected diagnostics: {:?}",
        out.diagnostics
    );
    assert_eq!(db.value("e", "a", "n"), "36");
    assert_eq!(db.value("e", "a", "r"), "3/1");
    assert_eq!(db.value("e", "b", "n"), "-5");
    assert_eq!(db.value("f", "a", "w"), "-12/1");
    assert_eq!(db.value("f", "b", "w"), "17/1");
}

fn keyed(init: Option<InitValue>) -> CatalogRelvar {
    relvar(
        "T",
        vec![("k", Type::Text), ("v", Type::Integer)],
        vec!["k"],
        init,
    )
}

fn kv(start: u32, k: &str, v: i64) -> InitElement {
    tuple(start, vec![("k", text(k)), ("v", number(v))])
}

#[test]
fn exact_duplicate_tuples_coalesce() {
    let t = keyed(relation(vec![kv(10, "x", 1), kv(20, "x", 1), kv(30, "y", 2)]));
    let mut db = Database::default();
    let (out, _) = provision(catalog("spdup", vec![t]), None, &mut db);
    assert!(error_codes(&out.diagnostics).is_empty());
    let report = out.report.expect("success");
    // The identical `{x,1}` tuple is coalesced (a relation is a set): 2 rows.
    assert_eq!(report.tables[0].rows_inserted, 2);
}

#[test]
fn key_collision_errors_and_never_touches_the_database() {
    let t = keyed(relation(vec![kv(10, "x", 1), kv(20, "x", 2)]));
    let mut db = Database::default();
    let (out, path) = provision(catalog("spcol", vec![t]), None, &mut db);
    assert!(out.report.is_none());
    assert!(error_codes(&out.diagnostics).contains(&"PV0005"));
    assert_eq!(
        out.diagnostics[0].message,
        "relvar `T`: two INIT tuples share the key k = \"x\" but differ in a non-key attribute"
    );
    assert_eq!(out.diagnostics[0].span, span(20));
    assert!(path.is_none());
    assert_eq!(db, Database::default());
}

#[test]
fn unprovisionable_column_type_errors() {
    // A `Binary` attribute has no seedable column kind.
    let b = relvar(
        "B",
        vec![("id", Type::Text), ("blob", Type::Binary)],
        vec!["id"],
        None,
    );
    let mut db = Database::default();
    let (out, path) = provision(catalog("spbin", vec![b]), None, &mut db);
    assert!(out.report.is_none());
    assert!(error_codes(&out.diagnostics).contains(&"PV0001"));
    assert_eq!(
        out.diagnostics[0].message,
        "relvar `B`: attribute `blob` has type `Binary`, which has no provisionable column type \
         (only Integer, Text, Boolean, Rational, Approximate, and Character can be seeded)"
    );
    assert!(path.is_none());
    assert_eq!(db, Database::default());
}

#[test]
fn schema_mismatch_rolls_back_byte_identical() {
    // A table that does not match the catalog (an extra column).
    let mut db = Database {
        objects: vec![(
            "t".to_string(),
            Object::Table {
                columns: vec!["k".to_string(), "v".to_string(), "extra".to_string()],
                rows: vec![],
            },
        )],
    };
    let before = db.clone();
    let t = keyed(relation(vec![kv(10, "x", 1)]));
    let (out, _) = provision(catalog("spmis", vec![t]), None, &mut db);
    assert!(out.report.is_none());
    assert!(error_codes(&out.diagnostics).contains(&"PV0008"));
    assert_eq!(
        out.diagnostics[0].notes,
        vec!["column `extra` is in the table but not declared".to_string()]
    );
    assert_eq!(db, before);
}

#[test]
fn view_named_like_a_table_errors() {
    let mut db = Database {
        objects: vec![("t".to_string(), Object::View)],
    };
    let t = relvar(
        "T",
        vec![("k", Type::Integer)],
        vec!["k"],
        relation(vec![tuple(10, vec![("k", number(1))])]),
    );
    let (out, _) = provision(catalog("spview", vec![t]), None, &mut db);
    assert!(out.report.is_none());
    assert!(error_codes(&out.diagnostics).contains(&"PV0009"));
    assert_eq!(
        out.diagnostics[0].message,
        "`t` exists as a view, not a table; provision never alters foreign objects"
    );
}

#[test]
fn reprovision_is_idempotent() {
    let t = || keyed(relation(vec![kv(10, "x", 1), kv(20, "y", 2)]));
    let mut db = Database::default();
    let (first, _) = provision(catalog("spidem", vec![t()]), None, &mut db);
    assert!(error_codes(&first.diagnostics).is_empty());
    assert!(first.report.unwrap().tables[0].created);

    let after = db.clone();
    let (second, _) = provision(catalog("spidem", vec![t()]), None, &mut db);
    assert!(error_codes(&second.diagnostics).is_empty());
    let report = second.report.unwrap();
    // The second run finds the table and seeds the same rows.
    assert!(!report.tables[0].created);
    assert_eq!(report.tables[0].rows_inserted, 2);
    assert_eq!(db, after);
}

#[test]
fn env_override_selects_the_target_file() {
    assert_eq!(file_variable("spenv"), "CODDL_SPENV_FILE");
    let t = || {
        relvar(
            "T",
            vec![("k", Type::Text)],
            vec!["k"],
            relation(vec![tuple(10, vec![("k", text("x"))])]),
        )
    };
    let mut db = Database::default();
    let (out, path) = provision(
        catalog("spenv", vec![t()]),
        Some("elsewhere.sqlite"),
        &mut db,
    );
    assert!(
        error_codes(&out.diagnostics).is_empty(),
        "{:?}",
        out.diagnostics
    );
    assert_eq!(path.as_deref(), Some("elsewhere.sqlite"));
    // Without it, the default is taken.
    let (_, path) = provision(catalog("spenv", vec![t()]), None, &mut db);
    assert_eq!(path.as_deref(), Some("spenv.sqlite"));
}

// ── each complaint ────────────────────────────────────────────────────

fn outcome_of(catalog: ResolvedCatalog) -> ProvisionOutcome {
    provision(catalog, None, &mut Database::default()).0
}

fn one_error(catalog: ResolvedCatalog) -> Diagnostic {
    let mut out = outcome_of(catalog);
    assert!(out.report.is_none());
    assert_eq!(out.diagnostics.len(), 1, "{:?}", out.diagnostics);
    out.diagnostics.pop().unwrap()
}

#[test]
fn relvar_without_a_key_is_refused() {
    let mut t = keyed(None);
    t.keys = vec![];
    let d = one_error(catalog("d", vec![t]));
    assert_eq!(d.code, "PV0001");
    assert_eq!(
        d.message,
        "relvar `T` has no candidate key to materialize as a PRIMARY KEY"
    );
    assert_eq!(d.span, Span::synthetic(0));
}

#[test]
fn unbound_key_attribute_is_refused() {
    let mut t = keyed(None);
    t.keys = vec![vec!["k".to_string(), "z".to_string()]];
    let d = one_error(catalog("d", vec![t]));
    assert_eq!(d.code, "PV0001");
    assert_eq!(
        d.message,
        "relvar `T`: key attribute `z` has no column binding"
    );
}

#[test]
fn attribute_outside_the_heading_has_no_type() {
    let mut t = keyed(None);
    t.columns.push(("z".to_string(), "z".to_string()));
    let d = one_error(catalog("d", vec![t]));
    assert!(d.message.contains("attribute `z` has type `?`"), "{}", d.message);
}

#[test]
fn initial_value_must_be_a_relation_literal() {
    let t = keyed(Some(InitValue {
        span: span(7),
        elements: None,
    }));
    let d = one_error(catalog("d", vec![t]));
    assert_eq!(d.code, "PV0002");
    assert_eq!(d.span, span(7));
    assert_eq!(
        d.message,
        "relvar `T`: INIT value must be a relation literal `Relation { … }` to be seeded; other \
         constant relation forms are not yet evaluable"
    );
}

#[test]
fn elements_must_be_tuple_literals() {
    let t = keyed(relation(vec![
        kv(10, "x", 1),
        InitElement {
            span: span(20),
            fields: None,
        },
    ]));
    let d = one_error(catalog("d", vec![t]));
    assert_eq!(d.code, "PV0002");
    assert_eq!(d.span, span(20));
    assert_eq!(
        d.message,
        "relvar `T`: each INIT element must be a tuple literal"
    );
}

#[test]
fn missing_attribute_is_reported_at_the_tuple() {
    let t = keyed(relation(vec![tuple(10, vec![("k", text("x"))])]));
    let d = one_error(catalog("d", vec![t]));
    assert_eq!(d.code, "PV0003");
    assert_eq!(d.span, span(10));
    assert_eq!(d.message, "relvar `T`: INIT tuple is missing attribute `v`");
}

#[test]
fn value_of_another_kind_is_reported_at_the_cell() {
    let t = keyed(relation(vec![tuple(
        10,
        vec![("k", text("x")), ("v", text("y"))],
    )]));
    let d = one_error(catalog("d", vec![t]));
    assert_eq!(d.code, "PV0003");
    assert_eq!(d.span, span(11));
    assert_eq!(
        d.message,
        "relvar `T`: INIT value for `v` does not match its column type"
    );
}

fn with_cell(folded: Folded) -> CatalogRelvar {
    let fields = vec![
        ("k".to_string(), cell(11, Folded::Scalar(text("x")))),
        ("v".to_string(), cell(12, folded)),
    ];
    keyed(relation(vec![InitElement {
        span: span(10),
        fields: Some(fields),
    }]))
}

#[test]
fn value_that_is_not_constant_is_refused() {
    let d = one_error(catalog("d", vec![with_cell(Folded::NotConstant)]));
    assert_eq!(d.code, "PV0003");
    assert_eq!(d.span, span(12));
    assert_eq!(
        d.message,
        "relvar `T`: INIT value for `v` is not a constant scalar; only constant expressions can \
         be seeded"
    );
}

#[test]
fn failed_evaluation_is_refused() {
    let failed = Folded::Failed("division by zero".to_string());
    let d = one_error(catalog("d", vec![with_cell(failed)]));
    assert_eq!(d.code, "PV0004");
    assert_eq!(
        d.message,
        "relvar `T`: evaluating the INIT value for `v` failed: division by zero"
    );
}

#[test]
fn database_without_a_file_is_refused() {
    let mut c = catalog("mine", vec![keyed(None)]);
    c.plan.as_mut().unwrap().db_file_default = None;
    let d = one_error(c);
    assert_eq!(d.code, "PV0006");
    assert_eq!(
        d.message,
        "cannot resolve a database file for `mine`: neither `CODDL_MINE_FILE` is set nor does the \
         `.cdstore` declare a `file:` default"
    );
}

#[test]
fn database_of_another_kind_is_refused() {
    let mut c = catalog("mine", vec![keyed(None)]);
    c.plan.as_mut().unwrap().backend_kind = BackendKind::Other("pg".to_string());
    let d = one_error(c);
    assert_eq!(d.code, "PV0007");
    assert_eq!(
        d.message,
        "database `mine` uses backend Other(\"pg\"); `coddl provision` supports SQLite only in v1"
    );
}

#[test]
fn catalog_with_errors_is_left_alone() {
    let mut c = catalog("mine", vec![keyed(None)]);
    let error = Diagnostic::error(span(3), "T0001", "unknown".to_string());
    c.diagnostics.push(error);
    let d = one_error(c);
    assert_eq!(d.code, "T0001");
}

#[test]
fn catalog_without_a_plan_is_left_alone() {
    let out = outcome_of(ResolvedCatalog {
        plan: None,
        diagnostics: vec![],
    });
    assert!(out.report.is_none());
    assert!(out.diagnostics.is_empty());
}

#[test]
fn failures_of_the_database_are_reported() {
    let of = |e: ProvisionError| {
        let mut out = finish(vec![], Err(e));
        assert!(out.report.is_none());
        out.diagnostics.pop().unwrap()
    };
    let d = of(ProvisionError::Open("no such directory".to_string()));
    assert_eq!(d.code, "PV0010");
    assert_eq!(d.message, "cannot open database: no such directory");
    let d = of(ProvisionError::Sql("disk full".to_string()));
    assert_eq!(d.code, "PV0010");
    assert_eq!(d.message, "database error during provisioning: disk full");
    let d = of(ProvisionError::SchemaMismatch {
        table: "t".to_string(),
        diff: SchemaDiff {
            missing_columns: vec![Column {
                name: "a".to_string(),
                not_null: true,
                kind: ColKind::Text,
            }],
            extra_columns: vec!["b".to_string()],
            kind_mismatches: vec![("c".to_string(), "TEXT".to_string(), "BLOB".to_string())],
            not_null_mismatches: vec![("d".to_string(), true, false)],
            pk_mismatch: Some((vec!["k".to_string()], vec!["k".to_string(), "l".to_string()])),
        },
    });
    assert_eq!(d.code, "PV0008");
    assert_eq!(
        d.message,
        "table `t` does not match the catalog; provision does not migrate — reconcile or drop it \
         by hand"
    );
    assert_eq!(
        d.notes,
        vec![
            "column `a` is declared but absent",
            "column `b` is in the table but not declared",
            "column `c`: catalog expects `TEXT`, table has `BLOB`",
            "column `d`: NOT NULL expected true, table has false",
            "primary key: catalog expects [\"k\"], table has [\"k\", \"l\"]",
        ]
    );
}

// ── schemas and rows ──────────────────────────────────────────────────

#[test]
fn primary_key_is_the_first_key_in_name_order() {
    let mut t = relvar(
        "T",
        vec![("a", Type::Text), ("b", Type::Integer), ("c", Type::Boolean)],
        vec!["b", "a"],
        None,
    );
    t.keys.push(vec!["c".to_string()]);
    t.columns[0].1 = "zed".to_string();
    let mut diagnostics = vec![];
    let schema = build_schema(&t, &mut diagnostics).expect("a schema");
    assert!(diagnostics.is_empty());
    assert_eq!(schema.table, "t");
    assert_eq!(schema.pk, vec!["b", "zed"]);
    let columns: Vec<(&str, ColKind, bool)> = schema
        .columns
        .iter()
        .map(|c| (c.name.as_str(), c.kind, c.not_null))
        .collect();
    assert_eq!(
        columns,
        vec![
            ("zed", ColKind::Text, true),
            ("b", ColKind::Integer, true),
            ("c", ColKind::Boolean, true),
        ]
    );
}

#[test]
fn rows_keep_the_order_of_their_first_tuples() {
    let t = keyed(relation(vec![
        kv(10, "b", 2),
        kv(20, "a", 1),
        kv(30, "b", 2),
    ]));
    let mut diagnostics = vec![];
    let schema = build_schema(&t, &mut diagnostics).unwrap();
    let rows: Vec<SeedRow> = build_rows(&t, &schema, &mut diagnostics).unwrap();
    assert_eq!(
        rows,
        vec![
            vec![SeedValue::Text("b".to_string()), SeedValue::Integer(2)],
            vec![SeedValue::Text("a".to_string()), SeedValue::Integer(1)],
        ]
    );
    assert!(diagnostics.is_empty());
}

#[test]
fn relvar_without_initial_value_is_emptied() {
    let t = keyed(None);
    let mut diagnostics = vec![];
    let schema = build_schema(&t, &mut diagnostics).unwrap();
    assert_eq!(build_rows(&t, &schema, &mut diagnostics).unwrap(), Vec::<SeedRow>::new());
}

fn approx(bits: u64, decimal: &str) -> Approx {
    Approx {
        bits,
        notation: "1e0".to_string(),
        decimal: decimal.to_string(),
    }
}

#[test]
fn coercion_needs_the_column_of_the_kind() {
    assert_eq!(coerce(&number(3), ColKind::Rational), Some(SeedValue::Rational(3, 1)));
    assert_eq!(coerce(&number(3), ColKind::Integer), Some(SeedValue::Integer(3)));
    assert_eq!(
        coerce(&text("s"), ColKind::Text),
        Some(SeedValue::Text("s".to_string()))
    );
    assert_eq!(
        coerce(&Literal::Boolean(true), ColKind::Boolean),
        Some(SeedValue::Boolean(true))
    );
    assert_eq!(
        coerce(&Literal::Character(97), ColKind::Character),
        Some(SeedValue::Character(97))
    );
    let one = Literal::Approximate(approx(1.5f64.to_bits(), "1.5"));
    assert_eq!(
        coerce(&one, ColKind::Approximate),
        Some(SeedValue::Approximate(approx(1.5f64.to_bits(), "1.5")))
    );
    assert_eq!(coerce(&number(3), ColKind::Text), None);
    assert_eq!(coerce(&Literal::Rational(1, 2), ColKind::Integer), None);
}

#[test]
fn approximate_values_are_told_apart_by_their_bits() {
    let a = SeedValue::Approximate(approx(7, "x"));
    let b = SeedValue::Approximate(approx(7, "y"));
    let c = SeedValue::Approximate(approx(8, "x"));
    assert!(a.same(&b));
    assert!(!a.same(&c));
}

#[test]
fn column_kinds_of_types() {
    assert_eq!(type_to_colkind(&Type::Integer), Some(ColKind::Integer));
    assert_eq!(type_to_colkind(&Type::Text), Some(ColKind::Text));
    assert_eq!(type_to_colkind(&Type::Boolean), Some(ColKind::Boolean));
    assert_eq!(type_to_colkind(&Type::Rational), Some(ColKind::Rational));
    assert_eq!(type_to_colkind(&Type::Approximate), Some(ColKind::Approximate));
    assert_eq!(type_to_colkind(&Type::Character), Some(ColKind::Character));
    assert_eq!(type_to_colkind(&Type::Byte), None);
    assert_eq!(type_to_colkind(&Type::Tuple(Heading::empty())), None);
}

#[test]
fn values_in_messages() {
    assert_eq!(render_value(&SeedValue::Integer(-3)), "-3");
    assert_eq!(
        render_value(&SeedValue::Text("a\"b\n".to_string())),
        "\"a\\\"b\\n\""
    );
    assert_eq!(render_value(&SeedValue::Boolean(false)), "false");
    assert_eq!(render_value(&SeedValue::Rational(-1, 2)), "-1/2");
    assert_eq!(render_value(&SeedValue::Approximate(approx(0, "1.5"))), "1.5");
    assert_eq!(render_value(&SeedValue::Character(97)), "'a'");
    assert_eq!(render_value(&SeedValue::Character(39)), "'\\''");
    assert_eq!(render_value(&SeedValue::Character(0xd800)), "U+D800");
    assert_eq!(render_value(&SeedValue::Character(0x11_0000)), "U+110000");
    let pk = vec!["a".to_string(), "b".to_string()];
    let key = vec![SeedValue::Integer(1), SeedValue::Text("x".to_string())];
    assert_eq!(render_key(&pk, &key), "a = 1, b = \"x\"");
}

#[test]
fn types_in_messages() {
    let heading = Heading::new(vec![
        ("b".to_string(), Type::Text),
        ("a".to_string(), Type::Sequence(Box::new(Type::Integer))),
    ]);
    let t = Type::Relation(heading);
    assert_eq!(
        t.word(),
        "Relation(Heading { attrs: [(\"a\", Sequence(Integer)), (\"b\", Text)] })"
    );
    assert_eq!(t.word(), format!("{t:?}"));
}
