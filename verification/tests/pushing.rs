//! Which expressions the database evaluates, and by which statements.

use coddl::cut::{card1_alt_of, sibling_fits, try_push, try_push_ordered, ParamSource, SqlQuery, Value};
use coddl::rel_expr::{CmpOp, Literal, Predicate, RelExpr, RestrictValue, StorageOrigin};
use coddl::types::{Heading, Type};

fn greetings() -> RelExpr {
    RelExpr::RelvarRef {
        name: "Greetings".to_string(),
        database: "greetings".to_string(),
        heading: Heading::new(vec![
            ("id".to_string(), Type::Integer),
            ("message".to_string(), Type::Text),
        ]),
        table_name: "greetings".to_string(),
        columns: vec![
            ("id".to_string(), "id".to_string()),
            ("message".to_string(), "message".to_string()),
        ],
        keys: vec![vec!["id".to_string()]],
    }
}

fn id_is_one() -> RelExpr {
    RelExpr::Restrict {
        input: Box::new(greetings()),
        pred: Predicate::AttrCmp {
            attr: "id".to_string(),
            op: CmpOp::Eq,
            value: RestrictValue::Lit(Literal::Integer(1)),
        },
    }
}

fn id_param(slot: usize) -> RelExpr {
    RelExpr::RelParam {
        slot,
        heading: Heading::new(vec![("id".to_string(), Type::Integer)]),
    }
}

/// The statement that was written for an expression.
fn written(expr: &RelExpr, text: &str, params: Vec<ParamSource>, slots: Vec<usize>) -> SqlQuery {
    SqlQuery {
        plan_key: 1,
        text: text.to_string(),
        param_count: params.len() as u32,
        params,
        rel_params: slots,
        gate_params: vec![],
        result_heading: expr.heading(),
    }
}

fn one() -> ParamSource {
    ParamSource::Value(Value::Integer(1))
}

#[test]
fn pushes_relvar_rooted_restrict() {
    let expr = id_is_one();
    let sql = r#"SELECT "id", "message" FROM "greetings" WHERE "id" = ?1"#;
    let q = try_push(&expr, Some(written(&expr, sql, vec![one()], vec![])), None)
        .expect("relvar-rooted subtree pushes")
        .query;
    assert_eq!(
        q.text,
        // Full heading keeps key `id` → already a set → no DISTINCT.
        r#"SELECT "id", "message" FROM "greetings" WHERE "id" = ?1"#
    );
    assert_eq!(q.param_count, 1);
    assert!(!expr.needs_distinct());
}

#[test]
fn pushes_relvar_rooted_tclose() {
    // A binary same-typed relvar `{ a: Integer, b: Integer }` closed: a
    // relvar-rooted `TClose` passes the origin gate.
    let edges = RelExpr::RelvarRef {
        name: "Edges".to_string(),
        database: "graph".to_string(),
        heading: Heading::new(vec![
            ("a".to_string(), Type::Integer),
            ("b".to_string(), Type::Integer),
        ]),
        table_name: "edges".to_string(),
        columns: vec![
            ("a".to_string(), "a".to_string()),
            ("b".to_string(), "b".to_string()),
        ],
        keys: vec![vec!["a".to_string(), "b".to_string()]],
    };
    let expr = RelExpr::TClose {
        input: Box::new(edges),
    };
    let sql = concat_recursive();
    let q = try_push(&expr, Some(written(&expr, &sql, vec![], vec![])), None)
        .expect("relvar-rooted tclose pushes")
        .query;
    assert!(
        q.text.starts_with("WITH RECURSIVE "),
        "tclose pushes as a recursive CTE: {}",
        q.text
    );
    assert!(q
        .text
        .contains(r#"JOIN coddl_tc_op ON coddl_tc."b" = coddl_tc_op."a""#));
}

fn concat_recursive() -> String {
    let mut sql = String::new();
    sql.push_str(r#"WITH RECURSIVE coddl_tc_op AS (SELECT "a", "b" FROM "edges"), "#);
    sql.push_str(r#"coddl_tc AS (SELECT "a", "b" FROM coddl_tc_op UNION "#);
    sql.push_str(r#"SELECT coddl_tc."a", coddl_tc_op."b" FROM coddl_tc "#);
    sql.push_str(r#"JOIN coddl_tc_op ON coddl_tc."b" = coddl_tc_op."a") "#);
    sql.push_str(r#"SELECT "a", "b" FROM coddl_tc"#);
    sql
}

#[test]
fn ordered_push_appends_order_by() {
    // The ordered statement of the relvar-rooted restrict is the plan's own.
    let expr = id_is_one();
    let sql = r#"SELECT "id", "message" FROM "greetings" WHERE "id" = ?1 ORDER BY "message""#;
    let q = try_push_ordered(&expr, Some(written(&expr, sql, vec![one()], vec![])), None)
        .expect("relvar-rooted ordered load pushes")
        .query;
    assert_eq!(
        q.text,
        r#"SELECT "id", "message" FROM "greetings" WHERE "id" = ?1 ORDER BY "message""#
    );
}

#[test]
fn mixed_matching_root_bakes_the_card1_sibling() {
    // `Greetings matching <local {id}> project { message }`: the general plan
    // is the EXISTS+VALUES form; the sibling is the plain keyed lookup that is
    // run when the shipped relation holds one row.
    let expr = RelExpr::Project {
        input: Box::new(RelExpr::Semijoin {
            lhs: Box::new(greetings()),
            rhs: Box::new(id_param(0)),
            negated: false,
        }),
        keep: vec!["message".to_string()],
    };
    let general = written(
        &expr,
        r#"SELECT "message" FROM "greetings" WHERE EXISTS (SELECT 1 FROM __CODDL_REL_0__)"#,
        vec![],
        vec![0],
    );
    let (rewritten, _) = expr.card1_semijoin_specialization().unwrap();
    let cell = ParamSource::SlotCell { slot: 0, cell: 0 };
    let sibling = written(
        &rewritten,
        r#"SELECT "message" FROM "greetings" WHERE "id" = ?1"#,
        vec![cell],
        vec![],
    );
    let plan = try_push(&expr, Some(general), Some(sibling)).expect("mixed matching pushes");
    assert!(plan.query.text.contains("WHERE EXISTS"));
    let (alt, dispatch_slot) = plan.card1_alt.expect("card-1 sibling baked");
    assert_eq!(dispatch_slot, 0);
    assert_eq!(
        alt.text,
        r#"SELECT "message" FROM "greetings" WHERE "id" = ?1"#
    );
    // The antijoin gets no sibling, whatever is written beside it.
    let anti = RelExpr::Semijoin {
        lhs: Box::new(greetings()),
        rhs: Box::new(id_param(0)),
        negated: true,
    };
    let general = written(
        &anti,
        r#"SELECT "id", "message" FROM "greetings" WHERE NOT EXISTS (SELECT 1)"#,
        vec![],
        vec![0],
    );
    let beside = written(&anti, "SELECT 1", vec![], vec![]);
    let plan = try_push(&anti, Some(general), Some(beside)).expect("mixed antijoin pushes");
    assert!(plan.card1_alt.is_none());
}

#[test]
fn stacked_semijoins_push_general_only() {
    // Two semijoins in one query never bake a sibling, for two distinct
    // reasons, but the general nested-EXISTS plan pushes either way.
    let mentions = RelExpr::RelvarRef {
        name: "Mentions".to_string(),
        database: "greetings".to_string(),
        heading: Heading::new(vec![
            ("id".to_string(), Type::Integer),
            ("topic".to_string(), Type::Text),
        ]),
        table_name: "mentions".to_string(),
        columns: vec![
            ("id".to_string(), "id".to_string()),
            ("topic".to_string(), "topic".to_string()),
        ],
        keys: vec![vec!["id".to_string(), "topic".to_string()]],
    };
    // A relvar-rooted semijoin in the lhs: the single-row rewriting exists, but
    // no statement can be written for it.
    let inner_relvar = RelExpr::Semijoin {
        lhs: Box::new(RelExpr::Semijoin {
            lhs: Box::new(greetings()),
            rhs: Box::new(mentions),
            negated: false,
        }),
        rhs: Box::new(id_param(0)),
        negated: false,
    };
    assert!(inner_relvar.card1_semijoin_specialization().is_some());
    let general = written(
        &inner_relvar,
        "SELECT 1 FROM a WHERE EXISTS (SELECT 1 FROM b) AND 1 IN (SELECT 1 WHERE EXISTS (SELECT 1))",
        vec![],
        vec![0],
    );
    let plan = try_push(&inner_relvar, Some(general), None).expect("nested semijoin pushes");
    assert_eq!(plan.query.text.matches("WHERE EXISTS").count(), 2);
    assert!(plan.card1_alt.is_none());
    // Two shipped slots: the rewriting is declined outright; both markers ride
    // the general plan.
    let two_slots = RelExpr::Semijoin {
        lhs: Box::new(RelExpr::Semijoin {
            lhs: Box::new(greetings()),
            rhs: Box::new(id_param(0)),
            negated: false,
        }),
        rhs: Box::new(id_param(1)),
        negated: false,
    };
    let general = written(
        &two_slots,
        "SELECT 1 FROM __CODDL_REL_0__, __CODDL_REL_1__",
        vec![],
        vec![0, 1],
    );
    let beside = written(&two_slots, "SELECT 1", vec![], vec![]);
    let plan = try_push(&two_slots, Some(general), Some(beside)).expect("two-slot semijoin pushes");
    assert!(
        plan.query.text.contains("__CODDL_REL_0__") && plan.query.text.contains("__CODDL_REL_1__")
    );
    assert!(plan.card1_alt.is_none());
}

#[test]
fn pushes_relvar_rooted_otherwise_as_one_plan() {
    // `Greetings otherwise Greetings` (both arms relvar-rooted) passes the
    // origin gate as one ordinary plan: no single-row sibling, whatever is
    // written beside it, and nothing shipped.
    let expr = RelExpr::Otherwise {
        primary: Box::new(id_is_one()),
        fallback: Box::new(greetings()),
    };
    let sql = written(
        &expr,
        r#"WITH coddl_ow_p AS (SELECT "id", "message" FROM "greetings" WHERE "id" = ?1) SELECT "id", "message" FROM coddl_ow_p UNION ALL SELECT "id", "message" FROM "greetings" WHERE NOT EXISTS (SELECT 1 FROM coddl_ow_p)"#,
        vec![one()],
        vec![],
    );
    let beside = written(&expr, "SELECT 1", vec![], vec![]);
    let plan = try_push(&expr, Some(sql), Some(beside)).expect("relvar-rooted otherwise pushes");
    assert!(plan.query.text.starts_with("WITH coddl_ow_p"));
    assert!(plan.query.text.contains("UNION ALL"));
    assert!(plan.query.text.contains("NOT EXISTS"));
    assert!(plan.card1_alt.is_none());
    assert!(plan.query.gate_params.is_empty());
    assert!(plan.query.rel_params.is_empty());
    // No ordered statement can be written for the compound, so the caller
    // sorts in-process.
    assert!(try_push_ordered(&expr, None, None).is_none());
}

#[test]
fn otherwise_is_analysed_as_a_union() {
    let expr = RelExpr::Otherwise {
        primary: Box::new(id_is_one()),
        fallback: Box::new(greetings()),
    };
    assert_eq!(expr.heading(), greetings().heading());
    assert_eq!(expr.origin(), StorageOrigin::RelvarRooted);
    assert!(expr.surviving_keys().is_empty());
    assert!(!expr.card_le_one());
    assert!(expr.needs_distinct());
    assert!(expr.references_table("greetings"));
    assert!(!expr.references_table("mentions"));
    assert_eq!(expr.clone(), expr);
    assert_eq!(
        expr.render(),
        "Otherwise\n  Restrict { id = 1 }\n    RelvarRef Greetings { db: greetings, table: greetings }\n  RelvarRef Greetings { db: greetings, table: greetings }"
    );
    let shipped = RelExpr::Otherwise {
        primary: Box::new(greetings()),
        fallback: Box::new(id_param(0)),
    };
    assert_eq!(shipped.origin(), StorageOrigin::Mixed);
    assert_eq!(shipped.rel_param_count(), 1);
}

#[test]
fn ordered_push_declines_setop_root() {
    // No ordered statement can be written for a root `union`, so the caller
    // sorts in-process. Unordered, the same union still pushes.
    let union = RelExpr::Or {
        lhs: Box::new(greetings()),
        rhs: Box::new(greetings()),
    };
    assert!(try_push_ordered(&union, None, None).is_none());
    let sql = written(&union, "SELECT 1 UNION SELECT 2", vec![], vec![]);
    assert!(try_push(&union, Some(sql), None).is_some());
}

#[test]
fn materialized_expressions_are_not_pushed() {
    let local = RelExpr::MaterializedRelvar {
        name: "Local".to_string(),
        heading: Heading::new(vec![("id".to_string(), Type::Integer)]),
    };
    let sql = written(&local, "SELECT 1", vec![], vec![]);
    assert!(try_push(&local, Some(sql), None).is_none());
}

#[test]
fn sibling_binds_extend_the_general_ones() {
    let expr = id_is_one();
    let cell = || ParamSource::SlotCell { slot: 0, cell: 0 };
    let general = written(&expr, "g", vec![one()], vec![]);
    let longer = written(&expr, "s", vec![one(), cell()], vec![]);
    let same = written(&expr, "s", vec![one()], vec![]);
    let other = written(&expr, "s", vec![cell(), cell()], vec![]);
    assert!(sibling_fits(&general, &longer));
    assert!(!sibling_fits(&general, &same));
    assert!(!sibling_fits(&general, &other));
    let shipping = written(&expr, "s", vec![one(), cell()], vec![0]);
    assert!(!sibling_fits(&general, &shipping));
}

#[test]
fn sibling_comes_with_its_dispatch_slot() {
    let expr = RelExpr::Semijoin {
        lhs: Box::new(id_is_one()),
        rhs: Box::new(id_param(3)),
        negated: false,
    };
    let general = written(&expr, "g", vec![one()], vec![3]);
    let cell = ParamSource::SlotCell { slot: 3, cell: 0 };
    let alt = written(&expr, "s", vec![one(), cell], vec![]);
    assert!(sibling_fits(&general, &alt));
    let (alt, slot) = card1_alt_of(&expr, &general, Some(alt)).expect("a sibling");
    assert_eq!(slot, 3);
    assert_eq!(alt.text, "s");
    assert!(sibling_fits(&general, &alt));
    assert!(card1_alt_of(&expr, &general, None).is_none());
}
