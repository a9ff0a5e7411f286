//! The relational expression that is built for the database means what the program
//! says.

use crate::ast::{BinaryOp, Expr, ExprKind};
use crate::lower::meaning::{bit, char_code, quotient, value_of, Codes};
use crate::lower::relational::{
    attr_ref, built, compose_names, conjuncts_of, literal_of, other_names, predicate_of,
    restricted, scalar_of, scalars_of,
};
use crate::lower::state::State;
use crate::rel_expr::{
    LiteralView, PredicateView, RelView, RestrictValueView, ScalarBinOp, ScalarView,
};
use crate::rel_laws::{
    law_rows_fit_heading, lemma_filter_contains, lemma_shared_names, lemma_union_names,
};
use crate::rel_meaning::{extended, is_renamed, narrow, over, strip, Row, World};
use crate::text::{name_pairs_of, names_of, Name};
use crate::types::{attr_names, heading_union, shared_of, HeadingView};
use vstd::prelude::*;
use vstd::utf8::encode_utf8;

verus! {

/// The value of a computed attribute for a row.
pub open spec fn scalar_value(c: Codes, x: ScalarView, r: Row) -> int
    decreases x,
{
    match x {
        ScalarView::Attr(n) => r[n],
        ScalarView::Int(n) => n,
        ScalarView::Str(s) => (c.text)(encode_utf8(s)),
        ScalarView::Char(ch) => char_code(c, ch),
        ScalarView::Bin { op, lhs, rhs } => {
            let (a, b) = (scalar_value(c, *lhs, r), scalar_value(c, *rhs, r));
            match op {
                ScalarBinOp::Add => a + b,
                ScalarBinOp::Sub => a - b,
                ScalarBinOp::Mul => a * b,
                ScalarBinOp::Div => quotient(a, b),
                ScalarBinOp::Concat => (c.concat)(a, b),
            }
        },
    }
}

/// Whether literals and computed attributes have their ordinary values.
pub open spec fn is_ordinary(c: Codes, w: World) -> bool {
    &&& forall|n: int| #[trigger]
        (w.value)(RestrictValueView::Lit(LiteralView::Integer(n))) == n
    &&& forall|s: Seq<char>| #[trigger]
        (w.value)(RestrictValueView::Lit(LiteralView::Text(s))) == (c.text)(encode_utf8(s))
    &&& forall|b: bool| #[trigger]
        (w.value)(RestrictValueView::Lit(LiteralView::Boolean(b))) == bit(b)
    &&& forall|x: ScalarView, r: Row| #[trigger] (w.scalar)(x, r) == scalar_value(c, x, r)
}

/// The values of a row's attributes.
pub open spec fn cells_of(r: Row) -> spec_fn(Name) -> int {
    |n: Name| r[n]
}

/// Whether a condition is true of a row.
pub open spec fn is_true_of(c: Codes, condition: Expr, r: Row) -> bool {
    value_of(c, condition, cells_of(r)) != 0
}

proof fn lemma_test(c: Codes, w: World, e: Expr, h: HeadingView, r: Row)
    requires
        is_ordinary(c, w),
        predicate_of(e, h) is Some,
    ensures
        predicate_of(e, h)->0.holds(w, r) == is_true_of(c, e, r),
{
    match e.kind {
        ExprKind::Binary { op, lhs, rhs } => {
            if attr_ref(*lhs) is Some {
                lemma_literal(c, w, *rhs, cells_of(r));
                assert(value_of(c, *lhs, cells_of(r)) == r[attr_ref(*lhs)->0]);
            } else {
                lemma_literal(c, w, *lhs, cells_of(r));
                assert(value_of(c, *rhs, cells_of(r)) == r[attr_ref(*rhs)->0]);
            }
        },
        _ => {},
    }
}

proof fn lemma_literal(c: Codes, w: World, e: Expr, names: spec_fn(Name) -> int)
    requires
        is_ordinary(c, w),
        literal_of(e) is Some,
    ensures
        value_of(c, e, names) == (w.value)(RestrictValueView::Lit(literal_of(e)->0)),
{
}

/// A condition that is accepted for the database is tested there as it is written: all
/// of the tests made of it hold of a row exactly when the condition, with the row's
/// values for the names in it, is true.
pub proof fn law_conditions_are_tested_as_written(
    c: Codes,
    w: World,
    condition: Expr,
    h: HeadingView,
    r: Row,
)
    requires
        is_ordinary(c, w),
        conjuncts_of(condition, h) is Some,
    ensures
        (forall|i: int|
            0 <= i < conjuncts_of(condition, h)->0.len() ==> (
            #[trigger] conjuncts_of(condition, h)->0[i]).holds(w, r)) <==> is_true_of(
            c,
            condition,
            r,
        ),
    decreases condition,
{
    let all = conjuncts_of(condition, h)->0;
    match condition.kind {
        ExprKind::Binary { op: BinaryOp::And, lhs, rhs } => {
            law_conditions_are_tested_as_written(c, w, *lhs, h, r);
            law_conditions_are_tested_as_written(c, w, *rhs, h, r);
            let (a, b) = (conjuncts_of(*lhs, h)->0, conjuncts_of(*rhs, h)->0);
            assert(all == a + b);
            if forall|i: int| 0 <= i < all.len() ==> (#[trigger] all[i]).holds(w, r) {
                assert forall|i: int| 0 <= i < a.len() implies (#[trigger] a[i]).holds(w, r) by {
                    assert(all[i] == a[i]);
                }
                assert forall|i: int| 0 <= i < b.len() implies (#[trigger] b[i]).holds(w, r) by {
                    assert(all[a.len() + i] == b[i]);
                }
            }
        },
        _ => {
            lemma_test(c, w, condition, h, r);
            assert(all =~= seq![predicate_of(condition, h)->0]);
            assert(all[0] == predicate_of(condition, h)->0);
        },
    }
}

proof fn lemma_restricted(w: World, input: RelView, preds: Seq<PredicateView>, r: Row)
    ensures
        restricted(input, preds).yields(w, r) <==> input.yields(w, r) && forall|i: int|
            0 <= i < preds.len() ==> (#[trigger] preds[i]).holds(w, r),
    decreases preds.len(),
{
    if preds.len() > 0 {
        let t = preds.drop_last();
        lemma_restricted(w, input, t, r);
        if forall|i: int| 0 <= i < preds.len() ==> (#[trigger] preds[i]).holds(w, r) {
            assert forall|i: int| 0 <= i < t.len() implies (#[trigger] t[i]).holds(w, r) by {
                assert(t[i] == preds[i]);
            }
            assert(preds.last() == preds[preds.len() - 1]);
        } else {
            let i = choose|i: int| 0 <= i < preds.len() && !(#[trigger] preds[i]).holds(w, r);
            if i < t.len() {
                assert(t[i] == preds[i]);
            }
        }
    }
}

/// A computed attribute has the value of the expression that it was made of.
pub proof fn law_computed_values_are_as_written(c: Codes, e: Expr, r: Row)
    requires
        scalar_of(e) is Some,
    ensures
        scalar_value(c, scalar_of(e)->0, r) == value_of(c, e, cells_of(r)),
    decreases e,
{
    match e.kind {
        ExprKind::Binary { op, lhs, rhs } => {
            law_computed_values_are_as_written(c, *lhs, r);
            law_computed_values_are_as_written(c, *rhs, r);
        },
        _ => {},
    }
}

/// A row with the values of the first `n` pairs under the pairs' names.
pub open spec fn row_with(c: Codes, s: Row, pairs: Seq<(String, Expr)>, n: nat) -> Row
    decreases n,
{
    if n == 0 {
        s
    } else {
        row_with(c, s, pairs, (n - 1) as nat).insert(
            pairs[n - 1].0@,
            value_of(c, pairs[n - 1].1, cells_of(s)),
        )
    }
}

proof fn lemma_extended(
    c: Codes,
    w: World,
    s: Row,
    pairs: Seq<(String, Expr)>,
    n: nat,
    h: HeadingView,
)
    requires
        is_ordinary(c, w),
        scalars_of(pairs, n, h) is Some,
    ensures
        extended(w, s, scalars_of(pairs, n, h)->0) == row_with(c, s, pairs, n),
    decreases n,
{
    if n > 0 {
        lemma_extended(c, w, s, pairs, (n - 1) as nat, h);
        law_computed_values_are_as_written(c, pairs[n - 1].1, s);
        let all = scalars_of(pairs, n, h)->0;
        assert(all.drop_last() =~= scalars_of(pairs, (n - 1) as nat, h)->0);
    }
}

/// Whether two rows have the same value under each attribute that both have.
pub open spec fn match_up(a: Row, b: Row) -> bool {
    forall|n: Name| #[trigger] a.dom().contains(n) && b.dom().contains(n) ==> a[n] == b[n]
}

/// The part of two rows together that stands in exactly one of them.
pub open spec fn apart(a: Row, b: Row) -> Row {
    Map::new(
        |n: Name| a.dom().contains(n) != b.dom().contains(n),
        |n: Name|
            if a.dom().contains(n) {
                a[n]
            } else {
                b[n]
            },
    )
}

/// Whether a row is the other under new names.
#[verifier::opaque]
pub open spec fn renames_to(s: Row, r: Row, renames: Seq<(Name, Name)>) -> bool {
    is_renamed(s, r, renames)
}

/// The part of a row under names, or outside them.
pub open spec fn part_of(s: Row, names: Seq<Name>, all_but: bool) -> Row {
    if all_but {
        strip(s, names)
    } else {
        narrow(s, names)
    }
}

/// Whether an expression is made of relvar names and of these operators: restriction,
/// projection, renaming, extension, join, composition, union and difference.
pub open spec fn is_algebraic(e: Expr) -> bool
    decreases e,
{
    match e.kind {
        ExprKind::NameRef(_) => true,
        ExprKind::Binary { op, lhs, rhs } => is_algebraic(*lhs) && (op == BinaryOp::Where
            || is_algebraic(*rhs)),
        ExprKind::Project { input, .. } => is_algebraic(*input),
        ExprKind::Rename { input, .. } => is_algebraic(*input),
        ExprKind::Extend { input, .. } => is_algebraic(*input),
        _ => false,
    }
}

/// Whether a row is in the relation that a name stands for.
pub open spec fn named_has(st: State, w: World, name: Name, r: Row) -> bool {
    match st.alias(name) {
        Some(rel) => rel.yields(w, r),
        None => match st.private(name) {
            Some(_) => (w.private)(name, r),
            None => match st.public(name) {
                Some(p) => (w.relvar)(st.database(), p.0.table_name, r),
                None => false,
            },
        },
    }
}

/// Whether a row is in the relation that a program's expression denotes.
pub open spec fn denotes(c: Codes, st: State, w: World, e: Expr, r: Row) -> bool
    decreases e,
{
    match e.kind {
        ExprKind::NameRef(name) => named_has(st, w, name@, r),
        ExprKind::Binary { op, lhs, rhs } => match op {
            BinaryOp::Where => denotes(c, st, w, *lhs, r) && is_true_of(c, *rhs, r),
            BinaryOp::Union => denotes(c, st, w, *lhs, r) || denotes(c, st, w, *rhs, r),
            BinaryOp::Minus => denotes(c, st, w, *lhs, r) && !denotes(c, st, w, *rhs, r),
            BinaryOp::Join | BinaryOp::Times | BinaryOp::Intersect => exists|a: Row, b: Row|
                denotes(c, st, w, *lhs, a) && denotes(c, st, w, *rhs, b) && #[trigger] match_up(
                    a,
                    b,
                ) && r == a.union_prefer_right(b),
            BinaryOp::Compose => exists|a: Row, b: Row|
                denotes(c, st, w, *lhs, a) && denotes(c, st, w, *rhs, b) && match_up(a, b) && r
                    == #[trigger] apart(a, b),
            _ => false,
        },
        ExprKind::Project { input, attrs, all_but } => exists|s: Row|
            denotes(c, st, w, *input, s) && r == #[trigger] part_of(s, names_of(attrs@), all_but),
        ExprKind::Rename { input, renames } => exists|s: Row|
            denotes(c, st, w, *input, s) && #[trigger] renames_to(s, r, name_pairs_of(renames@)),
        ExprKind::Extend { input, pairs } => exists|s: Row|
            denotes(c, st, w, *input, s) && r == #[trigger] row_with(c, s, pairs@, pairs@.len()),
        _ => false,
    }
}

/// The join of two expressions.
spec fn both_of(l: RelView, g: RelView) -> RelView {
    RelView::And { lhs: Box::new(l), rhs: Box::new(g) }
}

proof fn lemma_join(w: World, l: RelView, g: RelView, a: Row, b: Row)
    requires
        l.well_typed(),
        g.well_typed(),
        l.legal_in(w),
        g.legal_in(w),
        l.yields(w, a),
        g.yields(w, b),
        match_up(a, b),
    ensures
        both_of(l, g).yields(w, a.union_prefer_right(b)),
{
    law_rows_fit_heading(l, w, a);
    law_rows_fit_heading(g, w, b);
    let r = a.union_prefer_right(b);
    assert(narrow(r, attr_names(l.heading())) =~= a);
    assert(narrow(r, attr_names(g.heading())) =~= b);
}

/// The rows that a row of a join is made of.
proof fn lemma_joined(w: World, l: RelView, g: RelView, r: Row)
    requires
        l.well_typed(),
        g.well_typed(),
        l.legal_in(w),
        g.legal_in(w),
        both_of(l, g).yields(w, r),
    ensures
        ({
            let (a, b) = (narrow(r, attr_names(l.heading())), narrow(r, attr_names(g.heading())));
            &&& l.yields(w, a)
            &&& g.yields(w, b)
            &&& match_up(a, b)
            &&& r == a.union_prefer_right(b)
            &&& over(a, attr_names(l.heading()))
            &&& over(b, attr_names(g.heading()))
        }),
{
    let (a, b) = (narrow(r, attr_names(l.heading())), narrow(r, attr_names(g.heading())));
    law_rows_fit_heading(l, w, a);
    law_rows_fit_heading(g, w, b);
    assert(r =~= a.union_prefer_right(b));
}

/// A restriction is as well typed and as legal as its operand.
proof fn lemma_restricted_legal(w: World, input: RelView, preds: Seq<PredicateView>)
    ensures
        restricted(input, preds).well_typed() == input.well_typed(),
        restricted(input, preds).legal_in(w) == input.legal_in(w),
    decreases preds.len(),
{
    if preds.len() > 0 {
        lemma_restricted_legal(w, input, preds.drop_last());
    }
}

/// The attributes that a composition keeps stand in one operand alone.
proof fn lemma_compose_names(a: HeadingView, b: HeadingView, n: Name)
    ensures
        compose_names(a, b).contains(n) <==> attr_names(a).contains(n) != attr_names(b).contains(n),
{
    lemma_union_names(a, b, n);
    lemma_shared_names(a, b, n);
    lemma_other_names(heading_union(a, b), shared_of(a, b), n);
}

proof fn lemma_other_names(h: HeadingView, names: Seq<Name>, n: Name)
    ensures
        other_names(h, names).contains(n) <==> attr_names(h).contains(n) && !names.contains(n),
{
    lemma_filter_contains(attr_names(h), |m: Name| !names.contains(m), n);
}

/// The expression that is built for the database has exactly the rows that the
/// program's expression denotes, operator by operator: a restriction those of which its
/// condition is true, a projection the parts that it names, an extension those with the
/// values written for the new attributes, and so on. Where the expression is well
/// typed and relvars hold rows of their headings, this is so for every content that
/// they have.
#[verifier::rlimit(40)]
pub proof fn law_built_expressions_mean_what_is_written(
    c: Codes,
    st: State,
    w: World,
    e: Expr,
    r: Row,
)
    requires
        is_ordinary(c, w),
        is_algebraic(e),
        built(st, e) is Some,
        built(st, e)->0.well_typed(),
        built(st, e)->0.legal_in(w),
    ensures
        built(st, e)->0.yields(w, r) <==> denotes(c, st, w, e, r),
    decreases e, 1nat,
{
    let rel = built(st, e)->0;
    match e.kind {
        ExprKind::NameRef(name) => {},
        ExprKind::Binary { op, lhs, rhs } => {
            let l = built(st, *lhs)->0;
            if op == BinaryOp::Where {
                let preds = conjuncts_of(*rhs, l.heading())->0;
                lemma_restricted_legal(w, l, preds);
                law_built_expressions_mean_what_is_written(c, st, w, *lhs, r);
                lemma_restricted(w, l, preds, r);
                law_conditions_are_tested_as_written(c, w, *rhs, l.heading(), r);
            } else if op == BinaryOp::Union || op == BinaryOp::Minus {
                law_built_expressions_mean_what_is_written(c, st, w, *lhs, r);
                law_built_expressions_mean_what_is_written(c, st, w, *rhs, r);
            } else if op == BinaryOp::Compose {
                lemma_composed(c, st, w, e, r);
            } else {
                lemma_matched(c, st, w, e, r);
            }
        },
        ExprKind::Project { .. } => lemma_projected(c, st, w, e, r),
        ExprKind::Rename { .. } => lemma_renamed(c, st, w, e, r),
        ExprKind::Extend { .. } => lemma_widened(c, st, w, e, r),
        _ => {},
    }
}

/// A projection on all attributes but some.
proof fn lemma_stripped(w: World, x: RelView, names: Seq<Name>, s: Row)
    requires
        x.well_typed(),
        x.legal_in(w),
        x.yields(w, s),
    ensures
        narrow(s, other_names(x.heading(), names)) == strip(s, names),
{
    let keep = other_names(x.heading(), names);
    law_rows_fit_heading(x, w, s);
    assert forall|n: Name| #[trigger]
        narrow(s, keep).dom().contains(n) <==> strip(s, names).dom().contains(n) by {
        lemma_other_names(x.heading(), names, n);
    }
    assert(narrow(s, keep) =~= strip(s, names));
}

/// A projection.
proof fn lemma_projected(c: Codes, st: State, w: World, e: Expr, r: Row)
    requires
        is_ordinary(c, w),
        is_algebraic(e),
        built(st, e) is Some,
        built(st, e)->0.well_typed(),
        built(st, e)->0.legal_in(w),
        e.kind is Project,
    ensures
        built(st, e)->0.yields(w, r) <==> denotes(c, st, w, e, r),
    decreases e, 0nat,
{
    let rel = built(st, e)->0;
    if let ExprKind::Project { input, attrs, all_but } = e.kind {
        let x = built(st, *input)->0;
        let names = names_of(attrs@);
        if rel.yields(w, r) {
            let keep = rel->Project_keep;
            let s = choose|s: Row| x.yields(w, s) && r == #[trigger] narrow(s, keep);
            lemma_stripped(w, x, names, s);
            law_built_expressions_mean_what_is_written(c, st, w, *input, s);
            assert(r == part_of(s, names, all_but));
            assert(denotes(c, st, w, e, r));
        }
        if denotes(c, st, w, e, r) {
            let s = choose|s: Row|
                denotes(c, st, w, *input, s) && r == #[trigger] part_of(s, names, all_but);
            law_built_expressions_mean_what_is_written(c, st, w, *input, s);
            lemma_stripped(w, x, names, s);
            assert(r == narrow(s, rel->Project_keep));
            assert(rel.yields(w, r));
        }
    }
}

/// An expression under new names.
spec fn renaming(x: RelView, pairs: Seq<(Name, Name)>) -> RelView {
    RelView::Rename { input: Box::new(x), renames: pairs }
}

proof fn lemma_renaming(w: World, x: RelView, pairs: Seq<(Name, Name)>, r: Row) -> (s: Row)
    requires
        renaming(x, pairs).yields(w, r),
    ensures
        x.yields(w, s),
        renames_to(s, r, pairs),
{
    reveal(renames_to);
    choose|s: Row| x.yields(w, s) && #[trigger] is_renamed(s, r, pairs)
}

proof fn lemma_renaming_of(w: World, x: RelView, pairs: Seq<(Name, Name)>, s: Row, r: Row)
    requires
        x.yields(w, s),
        renames_to(s, r, pairs),
    ensures
        renaming(x, pairs).yields(w, r),
{
    reveal(renames_to);
    let e = renaming(x, pairs);
    match e {
        RelView::Rename { input, renames } => {
            assert(input.yields(w, s) && is_renamed(s, r, renames));
            assert(e.yields(w, r));
        },
        _ => {},
    }
}

/// A renaming.
proof fn lemma_renamed(c: Codes, st: State, w: World, e: Expr, r: Row)
    requires
        is_ordinary(c, w),
        is_algebraic(e),
        built(st, e) is Some,
        built(st, e)->0.well_typed(),
        built(st, e)->0.legal_in(w),
        e.kind is Rename,
    ensures
        built(st, e)->0.yields(w, r) <==> denotes(c, st, w, e, r),
    decreases e, 0nat,
{
    let rel = built(st, e)->0;
    if let ExprKind::Rename { input, renames } = e.kind {
        let x = built(st, *input)->0;
        let pairs = name_pairs_of(renames@);
        if rel.yields(w, r) {
            let s = lemma_renaming(w, x, pairs, r);
            law_built_expressions_mean_what_is_written(c, st, w, *input, s);
            assert(denotes(c, st, w, e, r));
        }
        if denotes(c, st, w, e, r) {
            let s = choose|s: Row|
                denotes(c, st, w, *input, s) && #[trigger] renames_to(s, r, pairs);
            law_built_expressions_mean_what_is_written(c, st, w, *input, s);
            lemma_renaming_of(w, x, pairs, s, r);
        }
    }
}

/// An extension.
proof fn lemma_widened(c: Codes, st: State, w: World, e: Expr, r: Row)
    requires
        is_ordinary(c, w),
        is_algebraic(e),
        built(st, e) is Some,
        built(st, e)->0.well_typed(),
        built(st, e)->0.legal_in(w),
        e.kind is Extend,
    ensures
        built(st, e)->0.yields(w, r) <==> denotes(c, st, w, e, r),
    decreases e, 0nat,
{
    let rel = built(st, e)->0;
    if let ExprKind::Extend { input, pairs } = e.kind {
        let x = built(st, *input)->0;
        let extends = scalars_of(pairs@, pairs@.len(), x.heading())->0;
        if rel.yields(w, r) {
            let s = choose|s: Row| x.yields(w, s) && r == #[trigger] extended(w, s, extends);
            lemma_extended(c, w, s, pairs@, pairs@.len(), x.heading());
            law_built_expressions_mean_what_is_written(c, st, w, *input, s);
            assert(r == row_with(c, s, pairs@, pairs@.len()));
            assert(denotes(c, st, w, e, r));
        }
        if denotes(c, st, w, e, r) {
            let s = choose|s: Row|
                denotes(c, st, w, *input, s) && r == #[trigger] row_with(
                    c,
                    s,
                    pairs@,
                    pairs@.len(),
                );
            lemma_extended(c, w, s, pairs@, pairs@.len(), x.heading());
            law_built_expressions_mean_what_is_written(c, st, w, *input, s);
            assert(r == extended(w, s, extends));
            assert(rel.yields(w, r));
        }
    }
}

/// A join.
proof fn lemma_matched(c: Codes, st: State, w: World, e: Expr, r: Row)
    requires
        is_ordinary(c, w),
        is_algebraic(e),
        built(st, e) is Some,
        built(st, e)->0.well_typed(),
        built(st, e)->0.legal_in(w),
        e.kind matches ExprKind::Binary { op, .. } && (op == BinaryOp::Join || op
            == BinaryOp::Times || op == BinaryOp::Intersect),
    ensures
        built(st, e)->0.yields(w, r) <==> denotes(c, st, w, e, r),
    decreases e, 0nat,
{
    let rel = built(st, e)->0;
    if let ExprKind::Binary { op, lhs, rhs } = e.kind {
        let (l, g) = (built(st, *lhs)->0, built(st, *rhs)->0);
        assert(rel == both_of(l, g));
        if rel.yields(w, r) {
            lemma_joined(w, l, g, r);
            let (a, b) = (narrow(r, attr_names(l.heading())), narrow(r, attr_names(g.heading())));
            law_built_expressions_mean_what_is_written(c, st, w, *lhs, a);
            law_built_expressions_mean_what_is_written(c, st, w, *rhs, b);
            assert(denotes(c, st, w, *lhs, a) && denotes(c, st, w, *rhs, b) && match_up(a, b));
            assert(denotes(c, st, w, e, r));
        }
        if denotes(c, st, w, e, r) {
            let (a, b) = choose|a: Row, b: Row|
                denotes(c, st, w, *lhs, a) && denotes(c, st, w, *rhs, b) && #[trigger] match_up(
                    a,
                    b,
                ) && r == a.union_prefer_right(b);
            law_built_expressions_mean_what_is_written(c, st, w, *lhs, a);
            law_built_expressions_mean_what_is_written(c, st, w, *rhs, b);
            lemma_join(w, l, g, a, b);
        }
    }
}

/// The composition of two expressions.
spec fn composition(l: RelView, g: RelView) -> RelView {
    RelView::Project {
        input: Box::new(both_of(l, g)),
        keep: compose_names(l.heading(), g.heading()),
    }
}

/// The rows that a row of a composition is made of.
proof fn lemma_parts(w: World, l: RelView, g: RelView, r: Row) -> (parts: (Row, Row))
    requires
        l.well_typed(),
        g.well_typed(),
        l.legal_in(w),
        g.legal_in(w),
        composition(l, g).yields(w, r),
    ensures
        l.yields(w, parts.0),
        g.yields(w, parts.1),
        match_up(parts.0, parts.1),
        r == apart(parts.0, parts.1),
{
    let keep = compose_names(l.heading(), g.heading());
    let s = choose|s: Row| both_of(l, g).yields(w, s) && r == #[trigger] narrow(s, keep);
    lemma_joined(w, l, g, s);
    let (a, b) = (narrow(s, attr_names(l.heading())), narrow(s, attr_names(g.heading())));
    lemma_apart(l.heading(), g.heading(), a, b);
    (a, b)
}

proof fn lemma_whole(w: World, l: RelView, g: RelView, a: Row, b: Row)
    requires
        l.well_typed(),
        g.well_typed(),
        l.legal_in(w),
        g.legal_in(w),
        l.yields(w, a),
        g.yields(w, b),
        match_up(a, b),
    ensures
        composition(l, g).yields(w, apart(a, b)),
{
    lemma_join(w, l, g, a, b);
    law_rows_fit_heading(l, w, a);
    law_rows_fit_heading(g, w, b);
    lemma_apart(l.heading(), g.heading(), a, b);
    let s = a.union_prefer_right(b);
    let e = composition(l, g);
    match e {
        RelView::Project { input, keep } => {
            assert(input.yields(w, s) && apart(a, b) == narrow(s, keep));
            assert(e.yields(w, apart(a, b)));
        },
        _ => {},
    }
}

/// A composition.
proof fn lemma_composed(c: Codes, st: State, w: World, e: Expr, r: Row)
    requires
        is_ordinary(c, w),
        is_algebraic(e),
        built(st, e) is Some,
        built(st, e)->0.well_typed(),
        built(st, e)->0.legal_in(w),
        e.kind matches ExprKind::Binary { op, .. } && op == BinaryOp::Compose,
    ensures
        built(st, e)->0.yields(w, r) <==> denotes(c, st, w, e, r),
    decreases e, 0nat,
{
    let rel = built(st, e)->0;
    if let ExprKind::Binary { op, lhs, rhs } = e.kind {
        let (l, g) = (built(st, *lhs)->0, built(st, *rhs)->0);
        assert(rel == composition(l, g));
        assert(both_of(l, g).well_typed() && both_of(l, g).legal_in(w));
        if rel.yields(w, r) {
            let (a, b) = lemma_parts(w, l, g, r);
            law_built_expressions_mean_what_is_written(c, st, w, *lhs, a);
            law_built_expressions_mean_what_is_written(c, st, w, *rhs, b);
            assert(r == apart(a, b));
            assert(denotes(c, st, w, e, r));
        }
        if denotes(c, st, w, e, r) {
            let (a, b) = choose|a: Row, b: Row|
                denotes(c, st, w, *lhs, a) && denotes(c, st, w, *rhs, b) && match_up(a, b) && r
                    == #[trigger] apart(a, b);
            law_built_expressions_mean_what_is_written(c, st, w, *lhs, a);
            law_built_expressions_mean_what_is_written(c, st, w, *rhs, b);
            lemma_whole(w, l, g, a, b);
        }
    }
}

proof fn lemma_apart(h: HeadingView, k: HeadingView, a: Row, b: Row)
    requires
        over(a, attr_names(h)),
        over(b, attr_names(k)),
    ensures
        narrow(a.union_prefer_right(b), compose_names(h, k)) == apart(a, b),
{
    let x = narrow(a.union_prefer_right(b), compose_names(h, k));
    assert forall|n: Name| #[trigger] x.dom().contains(n) <==> apart(a, b).dom().contains(n) by {
        lemma_compose_names(h, k, n);
    }
    assert(x =~= apart(a, b));
}

} // verus!
