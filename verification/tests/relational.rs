//! Relational expressions: what they say of themselves.

use coddl::rel_expr::{
    CmpOp, Literal, Predicate, RelExpr, RestrictValue, ScalarBinOp, ScalarExpr, StorageOrigin,
};
use coddl::types::{Heading, Type};

#[test]
fn cmpop_negate_is_logical_complement() {
    // `negate` is logical NOT (for the UPDATE complement), distinct from
    // `flip` (operand swap): negate(Lt) is GtEq, flip(Lt) is Gt.
    assert_eq!(CmpOp::Eq.negate(), CmpOp::Ne);
    assert_eq!(CmpOp::Ne.negate(), CmpOp::Eq);
    assert_eq!(CmpOp::Lt.negate(), CmpOp::GtEq);
    assert_eq!(CmpOp::GtEq.negate(), CmpOp::Lt);
    assert_eq!(CmpOp::Gt.negate(), CmpOp::LtEq);
    assert_eq!(CmpOp::LtEq.negate(), CmpOp::Gt);
    // Negation is an involution.
    for op in [
        CmpOp::Eq,
        CmpOp::Ne,
        CmpOp::Lt,
        CmpOp::LtEq,
        CmpOp::Gt,
        CmpOp::GtEq,
    ] {
        assert_eq!(op.negate().negate(), op);
    }
}

#[test]
fn references_table_walks_to_the_relvar_leaf() {
    // The bare leaf, and through `Restrict`/`Or`.
    assert!(greetings().references_table("greetings"));
    assert!(!greetings().references_table("other"));
    let restricted = RelExpr::Restrict {
        input: Box::new(greetings()),
        pred: id_eq_1(),
    };
    assert!(restricted.references_table("greetings"));
    // A private relvar has no SQL table — never matches.
    let private = RelExpr::MaterializedRelvar {
        name: "Local".to_string(),
        heading: greetings_heading(),
    };
    assert!(!private.references_table("greetings"));
    // One branch of an `Or` references it.
    let mixed = RelExpr::Or {
        lhs: Box::new(private),
        rhs: Box::new(restricted),
    };
    assert!(mixed.references_table("greetings"));
}

fn greetings_heading() -> Heading {
    Heading::new(vec![
        ("id".to_string(), Type::Integer),
        ("message".to_string(), Type::Text),
    ])
}

fn greetings() -> RelExpr {
    RelExpr::RelvarRef {
        name: "Greetings".to_string(),
        database: "greetings".to_string(),
        heading: greetings_heading(),
        table_name: "greetings".to_string(),
        columns: vec![
            ("id".to_string(), "id".to_string()),
            ("message".to_string(), "message".to_string()),
        ],
        keys: vec![vec!["id".to_string()]],
    }
}

fn id_eq_1() -> Predicate {
    Predicate::AttrCmp {
        attr: "id".to_string(),
        op: CmpOp::Eq,
        value: RestrictValue::Lit(Literal::Integer(1)),
    }
}

#[test]
fn relvar_ref_reports_its_heading_and_relvar_rooted_origin() {
    let r = greetings();
    assert_eq!(r.heading(), greetings_heading());
    assert_eq!(r.origin(), StorageOrigin::RelvarRooted);
}

#[test]
fn restrict_preserves_heading_and_origin() {
    let r = RelExpr::Restrict {
        input: Box::new(greetings()),
        pred: id_eq_1(),
    };
    assert_eq!(r.heading(), greetings_heading());
    assert_eq!(r.origin(), StorageOrigin::RelvarRooted);
}

#[test]
fn project_narrows_heading_and_keeps_origin() {
    let r = RelExpr::Project {
        input: Box::new(greetings()),
        keep: vec!["message".to_string()],
    };
    assert_eq!(
        r.heading(),
        Heading::new(vec![("message".to_string(), Type::Text)])
    );
    assert_eq!(r.origin(), StorageOrigin::RelvarRooted);
}

#[test]
fn project_over_restrict_propagates_through_both() {
    // project { message } (Greetings where id = 1)
    let r = RelExpr::Project {
        input: Box::new(RelExpr::Restrict {
            input: Box::new(greetings()),
            pred: id_eq_1(),
        }),
        keep: vec!["message".to_string()],
    };
    assert_eq!(
        r.heading(),
        Heading::new(vec![("message".to_string(), Type::Text)])
    );
    assert_eq!(r.origin(), StorageOrigin::RelvarRooted);
}

// ── render ────────────────────────────────────────────────────────

#[test]
fn render_indents_the_tree_outermost_first() {
    // project { message } (Greetings where id = 1)
    let r = RelExpr::Project {
        input: Box::new(RelExpr::Restrict {
            input: Box::new(greetings()),
            pred: id_eq_1(),
        }),
        keep: vec!["message".to_string()],
    };
    assert_eq!(
        r.render(),
        "Project { keep: message }\n  \
         Restrict { id = 1 }\n    \
         RelvarRef Greetings { db: greetings, table: greetings }"
    );
}

#[test]
fn render_quotes_text_predicate_literals() {
    let r = RelExpr::Restrict {
        input: Box::new(greetings()),
        pred: Predicate::AttrCmp {
            attr: "message".to_string(),
            op: CmpOp::Eq,
            value: RestrictValue::Lit(Literal::Text("hi".to_string())),
        },
    };
    assert!(
        r.render().contains(r#"Restrict { message = "hi" }"#),
        "text literals render quoted: {}",
        r.render()
    );
}

#[test]
fn render_shows_bound_param_as_placeholder() {
    // A restriction against a bound local renders its value as `:name` — the
    // explain-output placeholder for a runtime-bound value.
    let r = RelExpr::Restrict {
        input: Box::new(greetings()),
        pred: Predicate::AttrCmp {
            attr: "message".to_string(),
            op: CmpOp::Eq,
            value: RestrictValue::Param("wanted".to_string()),
        },
    };
    assert!(
        r.render().contains("Restrict { message = :wanted }"),
        "bound params render as :name — {}",
        r.render()
    );
}

#[test]
fn key_equality_against_a_param_still_bounds_cardinality() {
    // `Greetings where id = :p` — a key equality pins ≤ 1 tuple regardless of
    // whether the value is a literal or a runtime-bound parameter.
    let r = RelExpr::Restrict {
        input: Box::new(greetings()),
        pred: Predicate::AttrCmp {
            attr: "id".to_string(),
            op: CmpOp::Eq,
            value: RestrictValue::Param("p".to_string()),
        },
    };
    assert!(r.card_le_one());
    assert!(!r.needs_distinct());
}

// ── DISTINCT-elision analyses ─────────────────────────────────────

#[test]
fn bare_relvar_keeps_its_key_so_no_distinct() {
    let r = greetings();
    assert_eq!(r.surviving_keys(), vec![vec!["id".to_string()]]);
    assert!(!r.card_le_one());
    assert!(!r.needs_distinct(), "a full relvar read keeps its key");
}

#[test]
fn key_equality_restriction_bounds_cardinality() {
    // Greetings where id = 1 — id is the key, so ≤ 1 tuple.
    let r = RelExpr::Restrict {
        input: Box::new(greetings()),
        pred: id_eq_1(),
    };
    assert!(r.card_le_one());
    assert!(!r.needs_distinct());
}

#[test]
fn non_equality_on_key_does_not_bound_cardinality() {
    // `id <> 1` (or any range op) excludes/ranges over the key but pins no
    // single value — so it does NOT bound cardinality. The difference only
    // shows once a projection drops the key: then `<>` needs `DISTINCT`
    // whereas `=` does not.
    let ne = |op| RelExpr::Project {
        input: Box::new(RelExpr::Restrict {
            input: Box::new(greetings()),
            pred: Predicate::AttrCmp {
                attr: "id".to_string(),
                op,
                value: RestrictValue::Lit(Literal::Integer(1)),
            },
        }),
        keep: vec!["message".to_string()],
    };
    assert!(!ne(CmpOp::Ne).card_le_one());
    assert!(ne(CmpOp::Ne).needs_distinct());
    assert!(!ne(CmpOp::Lt).card_le_one());
    assert!(ne(CmpOp::Gt).needs_distinct());
    // Equality on the key still bounds it even after the projection.
    assert!(ne(CmpOp::Eq).card_le_one());
    assert!(!ne(CmpOp::Eq).needs_distinct());
}

#[test]
fn projection_keeping_the_key_needs_no_distinct() {
    let r = RelExpr::Project {
        input: Box::new(greetings()),
        keep: vec!["id".to_string()],
    };
    assert_eq!(r.surviving_keys(), vec![vec!["id".to_string()]]);
    assert!(!r.needs_distinct());
}

#[test]
fn projection_dropping_key_unbounded_needs_distinct() {
    // Greetings project {message} — key gone, cardinality unbounded.
    let r = RelExpr::Project {
        input: Box::new(greetings()),
        keep: vec!["message".to_string()],
    };
    assert!(r.surviving_keys().is_empty());
    assert!(!r.card_le_one());
    assert!(r.needs_distinct(), "dropping the key may create duplicates");
}

#[test]
fn projection_dropping_key_but_card_bounded_needs_no_distinct() {
    // (Greetings where id = 1) project {message} — key gone but ≤ 1 tuple.
    let r = RelExpr::Project {
        input: Box::new(RelExpr::Restrict {
            input: Box::new(greetings()),
            pred: id_eq_1(),
        }),
        keep: vec!["message".to_string()],
    };
    assert!(r.surviving_keys().is_empty());
    assert!(r.card_le_one());
    assert!(!r.needs_distinct());
}

// ── key inference through joins (cover + composite rules) ──────────

fn orders() -> RelExpr {
    RelExpr::RelvarRef {
        name: "Orders".to_string(),
        database: "shop".to_string(),
        heading: Heading::new(vec![
            ("order_id".to_string(), Type::Integer),
            ("cust_id".to_string(), Type::Integer),
        ]),
        table_name: "orders".to_string(),
        columns: vec![
            ("order_id".to_string(), "order_id".to_string()),
            ("cust_id".to_string(), "cust_id".to_string()),
        ],
        keys: vec![vec!["order_id".to_string()]],
    }
}

fn customers() -> RelExpr {
    RelExpr::RelvarRef {
        name: "Customers".to_string(),
        database: "shop".to_string(),
        heading: Heading::new(vec![
            ("cust_id".to_string(), Type::Integer),
            ("cname".to_string(), Type::Text),
        ]),
        table_name: "customers".to_string(),
        columns: vec![
            ("cust_id".to_string(), "cust_id".to_string()),
            ("cname".to_string(), "cname".to_string()),
        ],
        keys: vec![vec!["cust_id".to_string()]],
    }
}

fn sizes() -> RelExpr {
    RelExpr::RelvarRef {
        name: "Sizes".to_string(),
        database: "greetings".to_string(),
        heading: Heading::new(vec![("size".to_string(), Type::Text)]),
        table_name: "sizes".to_string(),
        columns: vec![("size".to_string(), "size".to_string())],
        keys: vec![vec!["size".to_string()]],
    }
}

#[test]
fn join_covering_a_key_lets_the_other_side_key_survive() {
    // Orders join Customers on cust_id. The join key {cust_id} covers
    // Customers' key, so each Order matches ≤ 1 Customer and Orders' key
    // {order_id} survives — the bare join is already a set, no DISTINCT.
    let j = RelExpr::And {
        lhs: Box::new(orders()),
        rhs: Box::new(customers()),
    };
    assert!(
        j.surviving_keys().contains(&vec!["order_id".to_string()]),
        "orders' key survives the FK->PK join: {:?}",
        j.surviving_keys()
    );
    assert!(!j.needs_distinct());
}

#[test]
fn compose_over_fk_pk_join_elides_distinct() {
    // Orders compose Customers = Project(And, keep = {order_id, cname}),
    // dropping the shared cust_id. {order_id} survives the projection, so the
    // result is provably unique: no DISTINCT.
    let compose = RelExpr::Project {
        input: Box::new(RelExpr::And {
            lhs: Box::new(orders()),
            rhs: Box::new(customers()),
        }),
        keep: vec!["order_id".to_string(), "cname".to_string()],
    };
    assert_eq!(compose.surviving_keys(), vec![vec!["order_id".to_string()]]);
    assert!(!compose.needs_distinct());
}

#[test]
fn join_projected_below_every_key_keeps_distinct() {
    // Project the compose down to just {cname}: order_id (the only surviving
    // key) is gone, so two orders for one customer collapse — DISTINCT stays.
    // The soundness guard that the derived keys don't over-elide.
    let r = RelExpr::Project {
        input: Box::new(RelExpr::And {
            lhs: Box::new(orders()),
            rhs: Box::new(customers()),
        }),
        keep: vec!["cname".to_string()],
    };
    assert!(r.surviving_keys().is_empty());
    assert!(
        r.needs_distinct(),
        "dropping every key may create duplicates"
    );
}

#[test]
fn times_composite_key_elides_distinct() {
    // Greetings times Sizes (disjoint headings): the cover rule can't fire
    // (empty join key), but the composite {id, size} keys the Cartesian
    // product, so a bare times needs no DISTINCT.
    let t = RelExpr::And {
        lhs: Box::new(greetings()),
        rhs: Box::new(sizes()),
    };
    assert!(!t.surviving_keys().is_empty());
    assert!(!t.needs_distinct());
}

#[test]
fn minus_preserves_lhs_keys() {
    // R minus S returns a subset of R, so R's key survives — no DISTINCT.
    let m = RelExpr::Minus {
        lhs: Box::new(greetings()),
        rhs: Box::new(greetings()),
    };
    assert_eq!(m.surviving_keys(), vec![vec!["id".to_string()]]);
    assert!(!m.needs_distinct());
}

#[test]
fn union_stays_keyless() {
    // Two same-heading operands can share key values, so `union` is keyless —
    // conservative (and SQL `UNION` dedups itself anyway).
    let u = RelExpr::Or {
        lhs: Box::new(greetings()),
        rhs: Box::new(greetings()),
    };
    assert!(u.surviving_keys().is_empty());
    assert!(u.needs_distinct());
}

// ── rename ────────────────────────────────────────────────────────

fn renamed() -> RelExpr {
    // Greetings replace {identifier: id, msg: message} — the surface
    // `replace` (bare-ref case) maps to this `Rename` node; the `(old, new)`
    // tuples are (source, target), unchanged by the surface direction.
    RelExpr::Rename {
        input: Box::new(greetings()),
        renames: vec![
            ("id".to_string(), "identifier".to_string()),
            ("message".to_string(), "msg".to_string()),
        ],
    }
}

#[test]
fn rename_remaps_and_recanonicalizes_heading() {
    let r = renamed();
    assert_eq!(
        r.heading(),
        // re-sorted under the new names: identifier < msg
        Heading::new(vec![
            ("identifier".to_string(), Type::Integer),
            ("msg".to_string(), Type::Text),
        ])
    );
    assert_eq!(r.origin(), StorageOrigin::RelvarRooted);
}

#[test]
fn rename_carries_keys_through_so_no_distinct() {
    let r = renamed();
    // key `id` becomes `identifier`; it still survives → no DISTINCT.
    assert_eq!(r.surviving_keys(), vec![vec!["identifier".to_string()]]);
    assert!(!r.needs_distinct());
}

// ── tclose ─────────────────────────────────────────────────────────

fn edges() -> RelExpr {
    // A binary same-typed graph relvar {from: Integer, to: Integer}.
    RelExpr::RelvarRef {
        name: "Edges".to_string(),
        database: "graph".to_string(),
        heading: Heading::new(vec![
            ("from".to_string(), Type::Integer),
            ("to".to_string(), Type::Integer),
        ]),
        table_name: "edges".to_string(),
        columns: vec![
            ("from".to_string(), "from".to_string()),
            ("to".to_string(), "to".to_string()),
        ],
        keys: vec![vec!["from".to_string(), "to".to_string()]],
    }
}

#[test]
fn tclose_preserves_heading_and_origin() {
    let r = RelExpr::TClose {
        input: Box::new(edges()),
    };
    assert_eq!(r.heading(), edges().heading());
    assert_eq!(r.origin(), StorageOrigin::RelvarRooted);
    // Closure introduces tuples → conservatively keyless → needs DISTINCT.
    assert!(r.surviving_keys().is_empty());
    assert!(!r.card_le_one());
}

#[test]
fn tclose_renders_one_indented_child() {
    let r = RelExpr::TClose {
        input: Box::new(edges()),
    };
    assert_eq!(
        r.render(),
        "TClose\n  RelvarRef Edges { db: graph, table: edges }"
    );
}

#[test]
fn rename_over_key_restriction_keeps_card_bound() {
    // (Greetings where id = 1) replace {msg: message} — still ≤ 1 tuple.
    let r = RelExpr::Rename {
        input: Box::new(RelExpr::Restrict {
            input: Box::new(greetings()),
            pred: id_eq_1(),
        }),
        renames: vec![("message".to_string(), "msg".to_string())],
    };
    assert!(r.card_le_one());
    assert!(!r.needs_distinct());
}

// ── extend ─────────────────────────────────────────────────────────

fn doubled() -> RelExpr {
    // Greetings extend { twice: id * id } — adds an Integer column.
    RelExpr::Extend {
        input: Box::new(greetings()),
        extends: vec![(
            "twice".to_string(),
            Type::Integer,
            ScalarExpr::Bin {
                op: ScalarBinOp::Mul,
                lhs: Box::new(ScalarExpr::Attr("id".to_string())),
                rhs: Box::new(ScalarExpr::Attr("id".to_string())),
            },
        )],
    }
}

#[test]
fn extend_adds_attribute_keeps_origin_and_keys() {
    let r = doubled();
    assert_eq!(
        r.heading(),
        Heading::new(vec![
            ("id".to_string(), Type::Integer),
            ("message".to_string(), Type::Text),
            ("twice".to_string(), Type::Integer),
        ])
    );
    assert_eq!(r.origin(), StorageOrigin::RelvarRooted);
    // The key `id` survives (extend removes nothing) → no DISTINCT.
    assert_eq!(r.surviving_keys(), vec![vec!["id".to_string()]]);
    assert!(!r.needs_distinct());
}

#[test]
fn extend_renders_expr_and_one_child() {
    assert_eq!(
        doubled().render(),
        "Extend { twice = (id * id) }\n  \
         RelvarRef Greetings { db: greetings, table: greetings }"
    );
}

// ── relation-valued parameters (RelParam) ──────────────────────────

fn path_param() -> RelExpr {
    // A local relation shipped as slot 0.
    RelExpr::RelParam {
        slot: 0,
        heading: Heading::new(vec![
            ("ordinality".to_string(), Type::Integer),
            ("slug".to_string(), Type::Text),
        ]),
    }
}

#[test]
fn rel_param_is_materialized_with_its_carried_heading() {
    let p = path_param();
    assert_eq!(p.origin(), StorageOrigin::Materialized);
    assert_eq!(
        p.heading(),
        Heading::new(vec![
            ("ordinality".to_string(), Type::Integer),
            ("slug".to_string(), Type::Text),
        ])
    );
    assert!(!p.card_le_one());
    assert!(!p.references_table("pages"));
}

#[test]
fn rel_param_full_heading_is_a_key_so_no_distinct() {
    // A relation value is a set, so its whole heading is a superkey: the
    // bare parameter (and anything that keeps every attribute) needs no
    // DISTINCT; projecting any attribute away drops the key.
    let p = path_param();
    assert_eq!(
        p.surviving_keys(),
        vec![vec!["ordinality".to_string(), "slug".to_string()]]
    );
    assert!(!p.needs_distinct());
    let projected = RelExpr::Project {
        input: Box::new(p),
        keep: vec!["slug".to_string()],
    };
    assert!(projected.surviving_keys().is_empty());
    assert!(projected.needs_distinct());
}

#[test]
fn relvar_matching_rel_param_is_mixed() {
    // A public relvar semijoined against a shipped local.
    let sj = RelExpr::Semijoin {
        lhs: Box::new(greetings()),
        rhs: Box::new(path_param()),
        negated: false,
    };
    assert_eq!(sj.origin(), StorageOrigin::Mixed);
    // The semijoin result heading is the lhs's, and the lhs keys survive.
    assert_eq!(sj.heading(), greetings_heading());
    assert!(!sj.needs_distinct());
}

#[test]
fn rel_param_renders_slot_and_attrs_as_a_leaf() {
    assert_eq!(path_param().render(), "RelParam #0 { ordinality, slug }");
    let sj = RelExpr::Semijoin {
        lhs: Box::new(greetings()),
        rhs: Box::new(path_param()),
        negated: false,
    };
    assert_eq!(
        sj.render(),
        "Semijoin\n  \
         RelvarRef Greetings { db: greetings, table: greetings }\n  \
         RelParam #0 { ordinality, slug }"
    );
}

#[test]
fn nullary_rel_param_empty_key_bounds_it() {
    // A nullary relation value (reltrue/relfalse) holds ≤ 1 tuple; the
    // empty key expresses exactly that, so no DISTINCT.
    let p = RelExpr::RelParam {
        slot: 0,
        heading: Heading::new(vec![]),
    };
    assert_eq!(p.surviving_keys(), vec![Vec::<String>::new()]);
    assert!(!p.needs_distinct());
}

/// A rel param already narrowed to the shared attribute `id`: the shape
/// of a semijoin's right operand.
fn id_param() -> RelExpr {
    RelExpr::RelParam {
        slot: 0,
        heading: Heading::new(vec![("id".to_string(), Type::Integer)]),
    }
}

#[test]
fn card1_specialization_rewrites_projected_matching_to_a_restrict_chain() {
    // A root projection over a semijoin whose rhs is the only rel param.
    let expr = RelExpr::Project {
        input: Box::new(RelExpr::Semijoin {
            lhs: Box::new(greetings()),
            rhs: Box::new(id_param()),
            negated: false,
        }),
        keep: vec!["message".to_string()],
    };
    let (rewritten, slot) = expr.card1_semijoin_specialization().unwrap();
    assert_eq!(slot, 0);
    assert_eq!(
        rewritten,
        RelExpr::Project {
            input: Box::new(RelExpr::Restrict {
                input: Box::new(greetings()),
                pred: Predicate::AttrCmp {
                    attr: "id".to_string(),
                    op: CmpOp::Eq,
                    value: RestrictValue::SlotCell { slot: 0, cell: 0 },
                },
            }),
            keep: vec!["message".to_string()],
        }
    );
    // The pinned key drives DISTINCT elision with no new machinery: the
    // equality is on `greetings`' key, so cardinality is provably ≤ 1.
    assert!(rewritten.card_le_one());
    assert!(!rewritten.needs_distinct());
}

#[test]
fn card1_specialization_handles_a_bare_semijoin_and_multi_attr_keys() {
    // No peeled projection; two shared attributes → one equality conjunct
    // per attribute, cells numbered in canonical heading order.
    let both = RelExpr::RelParam {
        slot: 0,
        heading: greetings_heading(),
    };
    let expr = RelExpr::Semijoin {
        lhs: Box::new(greetings()),
        rhs: Box::new(both),
        negated: false,
    };
    let (rewritten, slot) = expr.card1_semijoin_specialization().unwrap();
    assert_eq!(slot, 0);
    let RelExpr::Restrict { input, pred } = &rewritten else {
        panic!("expected the outer conjunct, got {rewritten:?}");
    };
    // Canonical order: `id` (cell 0) innermost, `message` (cell 1) outer.
    assert_eq!(
        *pred,
        Predicate::AttrCmp {
            attr: "message".to_string(),
            op: CmpOp::Eq,
            value: RestrictValue::SlotCell { slot: 0, cell: 1 },
        }
    );
    let RelExpr::Restrict { input, pred } = input.as_ref() else {
        panic!("expected the inner conjunct");
    };
    assert_eq!(
        *pred,
        Predicate::AttrCmp {
            attr: "id".to_string(),
            op: CmpOp::Eq,
            value: RestrictValue::SlotCell { slot: 0, cell: 0 },
        }
    );
    assert_eq!(**input, greetings());
}

#[test]
fn card1_specialization_declines_out_of_scope_shapes() {
    // Antijoin: cardinality-1 `not matching` negates the conjunction — a
    // disjunction, which no predicate expresses.
    let anti = RelExpr::Semijoin {
        lhs: Box::new(greetings()),
        rhs: Box::new(id_param()),
        negated: true,
    };
    assert_eq!(anti.card1_semijoin_specialization(), None);
    // Structural rhs: no shipped slot to dispatch on.
    let structural = RelExpr::Semijoin {
        lhs: Box::new(greetings()),
        rhs: Box::new(RelExpr::Project {
            input: Box::new(greetings()),
            keep: vec!["id".to_string()],
        }),
        negated: false,
    };
    assert_eq!(structural.card1_semijoin_specialization(), None);
    // A rhs wider than the shared attributes (not the narrowed form):
    // `ordinality` has no `greetings` counterpart to pin.
    let wide = RelExpr::Semijoin {
        lhs: Box::new(greetings()),
        rhs: Box::new(path_param()),
        negated: false,
    };
    assert_eq!(wide.card1_semijoin_specialization(), None);
    // A second rel param elsewhere in the tree: the sibling plan would
    // inherit its marker.
    let two_slots = RelExpr::Semijoin {
        lhs: Box::new(RelExpr::And {
            lhs: Box::new(greetings()),
            rhs: Box::new(RelExpr::RelParam {
                slot: 0,
                heading: Heading::new(vec![("id".to_string(), Type::Integer)]),
            }),
        }),
        rhs: Box::new(RelExpr::RelParam {
            slot: 1,
            heading: Heading::new(vec![("id".to_string(), Type::Integer)]),
        }),
        negated: false,
    };
    assert_eq!(two_slots.card1_semijoin_specialization(), None);
}

#[test]
fn expanding_undoes_gathering() {
    let part = || Heading::new(vec![("message".to_string(), Type::Text)]);
    let wrapped = RelExpr::Wrap {
        input: Box::new(greetings()),
        wraps: vec![("inner".to_string(), part())],
    };
    assert_eq!(
        wrapped.heading(),
        Heading::new(vec![
            ("id".to_string(), Type::Integer),
            ("inner".to_string(), Type::Tuple(part())),
        ])
    );
    let unwrapped =
        RelExpr::Unwrap { input: Box::new(wrapped), names: vec!["inner".to_string()] };
    assert_eq!(unwrapped.heading(), greetings_heading());
    let grouped = RelExpr::Group {
        input: Box::new(greetings()),
        groups: vec![("message".to_string(), part())],
    };
    let ungrouped =
        RelExpr::Ungroup { input: Box::new(grouped), names: vec!["message".to_string()] };
    assert_eq!(ungrouped.heading(), greetings_heading());
}
