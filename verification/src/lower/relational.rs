//! Relational expressions out of the syntax tree.

use crate::ast::{BinaryOp, Expr, ExprKind, Literal as Lit};
use crate::literals::{
    char_value, decode_char, decode_string, integer_value, parse_integer, string_value,
};
use crate::lower::lowerer::{maybe_rel, Lowerer};
use crate::lower::state::State;
use crate::rel_expr::{
    copy_name_lists, copy_pairs, extends_view, named_headings, CmpOp, Literal, LiteralView,
    Predicate, PredicateView, RelExpr, RelView, RestrictValue, RestrictValueView, ScalarBinOp,
    ScalarExpr, ScalarView,
};
use crate::text::{copy_names, has_name, name_pairs_of, names_of, Name};
use crate::types::{
    attr_names, attrs_view, canonical, heading_union, headings_agree, lookup_attr, shared_of,
    Heading, HeadingView, Type, TypeView,
};
use vstd::prelude::*;

verus! {

/// The relational expression that a name stands for: one named by a binding, a
/// private relvar, or a public one; a name bound to a value stands for none.
pub open spec fn named_rel(st: State, name: Name) -> Option<RelView> {
    match st.alias(name) {
        Some(rel) => Some(rel),
        None => if st.local(name) is Some {
            None
        } else {
            match st.private(name) {
                Some(id) => Some(
                    RelView::MaterializedRelvar { name, heading: st.heading_at(id) },
                ),
                None => match st.public(name) {
                    Some(p) => Some(
                        RelView::RelvarRef {
                            name: p.0.name,
                            database: st.database(),
                            heading: st.heading_at(p.0.heading_id),
                            table_name: p.0.table_name,
                            columns: p.0.columns,
                            keys: p.0.keys,
                        },
                    ),
                    None => None,
                },
            }
        },
    }
}

/// The comparison that an operator makes.
pub open spec fn test_of(op: BinaryOp) -> Option<CmpOp> {
    match op {
        BinaryOp::Eq => Some(CmpOp::Eq),
        BinaryOp::NotEq => Some(CmpOp::Ne),
        BinaryOp::Lt => Some(CmpOp::Lt),
        BinaryOp::LtEq => Some(CmpOp::LtEq),
        BinaryOp::Gt => Some(CmpOp::Gt),
        BinaryOp::GtEq => Some(CmpOp::GtEq),
        _ => None,
    }
}

/// The name, when the expression is a bare name.
pub open spec fn attr_ref(e: Expr) -> Option<Name> {
    match e.kind {
        ExprKind::NameRef(name) => Some(name@),
        _ => None,
    }
}

/// The value of an integer, text or boolean literal.
pub open spec fn literal_of(e: Expr) -> Option<LiteralView> {
    match e.kind {
        ExprKind::Literal(Lit::Integer(text)) => match integer_value(text@) {
            Some(n) => Some(LiteralView::Integer(n)),
            None => None,
        },
        ExprKind::Literal(Lit::Str(text)) => match string_value(text@) {
            Some(s) => Some(LiteralView::Text(s)),
            None => None,
        },
        ExprKind::BoolLit(b) => Some(LiteralView::Boolean(b)),
        _ => None,
    }
}

/// The test `attr op literal` over attributes of `h`, with the operator turned
/// round for `literal op attr`.
pub open spec fn predicate_of(e: Expr, h: HeadingView) -> Option<PredicateView> {
    match e.kind {
        ExprKind::Binary { op, lhs, rhs } => match test_of(op) {
            Some(test) => match (attr_ref(*lhs), attr_ref(*rhs)) {
                (Some(attr), None) => attr_test(attr, test, *rhs, h),
                (None, Some(attr)) => attr_test(attr, test.flipped(), *lhs, h),
                _ => None,
            },
            None => None,
        },
        _ => None,
    }
}

/// The test of one attribute of `h` against a literal.
pub open spec fn attr_test(attr: Name, op: CmpOp, literal: Expr, h: HeadingView) -> Option<
    PredicateView,
> {
    match (lookup_attr(h, attr), literal_of(literal)) {
        (Some(_), Some(l)) => Some(
            PredicateView::AttrCmp { attr, op, value: RestrictValueView::Lit(l) },
        ),
        _ => None,
    }
}

/// The tests that a chain of `and` joins, from left to right.
pub open spec fn conjuncts_of(e: Expr, h: HeadingView) -> Option<Seq<PredicateView>>
    decreases e,
{
    match e.kind {
        ExprKind::Binary { op: BinaryOp::And, lhs, rhs } => match (
            conjuncts_of(*lhs, h),
            conjuncts_of(*rhs, h),
        ) {
            (Some(a), Some(b)) => Some(a + b),
            _ => None,
        },
        _ => match predicate_of(e, h) {
            Some(p) => Some(seq![p]),
            None => None,
        },
    }
}

/// The operand restricted by one test after another.
pub open spec fn restricted(input: RelView, preds: Seq<PredicateView>) -> RelView
    decreases preds.len(),
{
    if preds.len() == 0 {
        input
    } else {
        RelView::Restrict {
            input: Box::new(restricted(input, preds.drop_last())),
            pred: preds.last(),
        }
    }
}

/// The arithmetic or concatenation that an operator makes.
pub open spec fn scalar_op_of(op: BinaryOp) -> Option<ScalarBinOp> {
    match op {
        BinaryOp::Add => Some(ScalarBinOp::Add),
        BinaryOp::Sub => Some(ScalarBinOp::Sub),
        BinaryOp::Mul => Some(ScalarBinOp::Mul),
        BinaryOp::Div => Some(ScalarBinOp::Div),
        BinaryOp::Concat => Some(ScalarBinOp::Concat),
        _ => None,
    }
}

/// The scalar expression over attributes and literals.
pub open spec fn scalar_of(e: Expr) -> Option<ScalarView>
    decreases e,
{
    match e.kind {
        ExprKind::NameRef(name) => Some(ScalarView::Attr(name@)),
        ExprKind::Literal(Lit::Integer(text)) => match integer_value(text@) {
            Some(n) => Some(ScalarView::Int(n)),
            None => None,
        },
        ExprKind::Literal(Lit::Str(text)) => match string_value(text@) {
            Some(s) => Some(ScalarView::Str(s)),
            None => None,
        },
        ExprKind::Literal(Lit::Char(text)) => match char_value(text@) {
            Some(c) => Some(ScalarView::Char(c)),
            None => None,
        },
        ExprKind::Binary { op, lhs, rhs } => match scalar_op_of(op) {
            Some(op) => match (scalar_of(*lhs), scalar_of(*rhs)) {
                (Some(lhs), Some(rhs)) => Some(
                    ScalarView::Bin { op, lhs: Box::new(lhs), rhs: Box::new(rhs) },
                ),
                _ => None,
            },
            None => None,
        },
        _ => None,
    }
}

/// The type of a scalar expression over attributes of `h`.
pub open spec fn scalar_type(e: ScalarView, h: HeadingView) -> TypeView {
    match e {
        ScalarView::Attr(name) => match lookup_attr(h, name) {
            Some(t) => t,
            None => TypeView::Unknown,
        },
        ScalarView::Int(_) => TypeView::Integer,
        ScalarView::Str(_) => TypeView::Text,
        ScalarView::Char(_) => TypeView::Character,
        ScalarView::Bin { op, .. } => match op {
            ScalarBinOp::Concat => TypeView::Text,
            _ => TypeView::Integer,
        },
    }
}

/// The attributes that a scalar expression reads.
pub open spec fn refs_of(e: ScalarView) -> Seq<Name>
    decreases e,
{
    match e {
        ScalarView::Attr(name) => seq![name],
        ScalarView::Bin { lhs, rhs, .. } => refs_of(*lhs) + refs_of(*rhs),
        _ => Seq::empty(),
    }
}

/// The first `n` pairs as computed attributes.
pub open spec fn scalars_of(pairs: Seq<(String, Expr)>, n: nat, h: HeadingView) -> Option<
    Seq<(Name, TypeView, ScalarView)>,
>
    decreases n,
{
    if n == 0 {
        Some(Seq::empty())
    } else {
        match (scalars_of(pairs, (n - 1) as nat, h), scalar_of(pairs[n - 1].1)) {
            (Some(s), Some(x)) => Some(s.push((pairs[n - 1].0@, scalar_type(x, h), x))),
            _ => None,
        }
    }
}

/// The attributes that the computed attributes read.
pub open spec fn read_by(extends: Seq<(Name, TypeView, ScalarView)>) -> Seq<Name>
    decreases extends.len(),
{
    if extends.len() == 0 {
        Seq::empty()
    } else {
        read_by(extends.drop_last()) + refs_of(extends.last().2)
    }
}

/// The names that values come with.
pub open spec fn pair_names(extends: Seq<(Name, TypeView, ScalarView)>) -> Seq<Name> {
    Seq::new(extends.len(), |i: int| extends[i].0)
}

/// The name under which a new value is first computed: its own, or another one
/// while an attribute of that name is still there.
pub open spec fn sub_name(h: HeadingView, new: Name) -> Name {
    if lookup_attr(h, new) is Some {
        "__coddl_replace_tmp_"@ + new
    } else {
        new
    }
}

/// The names under which new values are first computed.
pub open spec fn sub_names(h: HeadingView, names: Seq<Name>) -> Seq<Name> {
    Seq::new(names.len(), |i: int| sub_name(h, names[i]))
}

/// The renames that give new values their names.
pub open spec fn sub_renames(h: HeadingView, names: Seq<Name>) -> Seq<(Name, Name)>
    decreases names.len(),
{
    if names.len() == 0 {
        Seq::empty()
    } else if lookup_attr(h, names.last()) is Some {
        sub_renames(h, names.drop_last()).push((sub_name(h, names.last()), names.last()))
    } else {
        sub_renames(h, names.drop_last())
    }
}

/// The attributes kept beside new values: all that are not removed.
pub open spec fn sub_keep(h: HeadingView, names: Seq<Name>, removed: Seq<Name>) -> Seq<Name> {
    (attr_names(h) + sub_names(h, names)).filter(|n: Name| !removed.contains(n))
}

/// The operand with attributes overwritten: the new values computed, the
/// removed attributes dropped, and the new values given their names.
pub open spec fn substituted(
    input: RelView,
    pairs: Seq<(Name, TypeView, ScalarView)>,
    removed: Seq<Name>,
) -> RelView {
    let h = input.heading();
    let names = pair_names(pairs);
    let body = RelView::Project {
        input: Box::new(
            RelView::Extend {
                input: Box::new(input),
                extends: Seq::new(
                    pairs.len(),
                    |i: int| (sub_name(h, pairs[i].0), pairs[i].1, pairs[i].2),
                ),
            },
        ),
        keep: sub_keep(h, names, removed),
    };
    let renames = sub_renames(h, names);
    if renames.len() == 0 {
        body
    } else {
        RelView::Rename { input: Box::new(body), renames }
    }
}

/// The attributes of those names, in the order of the names.
pub open spec fn picked(h: HeadingView, names: Seq<Name>) -> HeadingView
    decreases names.len(),
{
    if names.len() == 0 {
        Seq::empty()
    } else {
        match lookup_attr(h, names.last()) {
            Some(t) => picked(h, names.drop_last()).push((names.last(), t)),
            None => picked(h, names.drop_last()),
        }
    }
}

/// The new names of a wrap with the headings of their components.
pub open spec fn wraps_of(h: HeadingView, wraps: Seq<(String, Vec<String>)>) -> Seq<
    (Name, HeadingView),
> {
    Seq::new(wraps.len(), |i: int| (wraps[i].0@, canonical(picked(h, names_of(wraps[i].1@)))))
}

/// The names of `h` that are not among `names`.
pub open spec fn other_names(h: HeadingView, names: Seq<Name>) -> Seq<Name> {
    attr_names(h).filter(|n: Name| !names.contains(n))
}

/// The relational expression of a syntax tree; `None` for a form that is not
/// relational, or that has no such expression.
pub open spec fn built(st: State, e: Expr) -> Option<RelView>
    decreases e,
{
    match e.kind {
        ExprKind::NameRef(name) => named_rel(st, name@),
        ExprKind::Binary { op, lhs, rhs } => match op {
            BinaryOp::Where => match built(st, *lhs) {
                Some(input) => restriction(input, *rhs),
                None => None,
            },
            _ => match (built(st, *lhs), built(st, *rhs)) {
                (Some(l), Some(r)) => combination(op, l, r),
                _ => None,
            },
        },
        ExprKind::Project { input, attrs, all_but } => match built(st, *input) {
            Some(input) => projection(input, names_of(attrs@), all_but),
            None => None,
        },
        ExprKind::Replace { input, pairs } => match built(st, *input) {
            Some(input) => replacement(input, pairs@),
            None => None,
        },
        ExprKind::Rename { input, renames } => match built(st, *input) {
            Some(input) => Some(
                RelView::Rename { input: Box::new(input), renames: name_pairs_of(renames@) },
            ),
            None => None,
        },
        ExprKind::Tclose { input, attrs } => match built(st, *input) {
            Some(input) => Some(closure(input, names_of(attrs@))),
            None => None,
        },
        ExprKind::Extend { input, pairs } => match built(st, *input) {
            Some(input) => extension(input, pairs@),
            None => None,
        },
        ExprKind::Wrap { input, wraps } => match built(st, *input) {
            Some(input) => if input.has_heading() {
                Some(
                    RelView::Wrap {
                        input: Box::new(input),
                        wraps: wraps_of(input.heading(), wraps@),
                    },
                )
            } else {
                None
            },
            None => None,
        },
        ExprKind::Unwrap { input, attrs } => match built(st, *input) {
            Some(input) => Some(
                RelView::Unwrap { input: Box::new(input), names: names_of(attrs@) },
            ),
            None => None,
        },
        _ => None,
    }
}

/// The operand restricted by a condition that is a chain of tests.
pub open spec fn restriction(input: RelView, condition: Expr) -> Option<RelView> {
    if input.has_heading() {
        match conjuncts_of(condition, input.heading()) {
            Some(preds) => Some(restricted(input, preds)),
            None => None,
        }
    } else {
        None
    }
}

/// The two operands under a relational operator.
pub open spec fn combination(op: BinaryOp, lhs: RelView, rhs: RelView) -> Option<RelView> {
    match op {
        BinaryOp::Join | BinaryOp::Times | BinaryOp::Intersect => Some(
            RelView::And { lhs: Box::new(lhs), rhs: Box::new(rhs) },
        ),
        BinaryOp::Union => Some(RelView::Or { lhs: Box::new(lhs), rhs: Box::new(rhs) }),
        BinaryOp::Minus => Some(RelView::Minus { lhs: Box::new(lhs), rhs: Box::new(rhs) }),
        BinaryOp::Compose => if lhs.has_heading() && rhs.has_heading() && headings_agree(
            lhs.heading(),
            rhs.heading(),
        ) {
            Some(
                RelView::Project {
                    input: Box::new(RelView::And { lhs: Box::new(lhs), rhs: Box::new(rhs) }),
                    keep: compose_names(lhs.heading(), rhs.heading()),
                },
            )
        } else {
            None
        },
        _ => None,
    }
}

/// The attributes that stand in exactly one of the two headings.
pub open spec fn compose_names(lhs: HeadingView, rhs: HeadingView) -> Seq<Name> {
    other_names(heading_union(lhs, rhs), shared_of(lhs, rhs))
}

/// The operand narrowed to the listed attributes, or to all but those.
pub open spec fn projection(input: RelView, listed: Seq<Name>, all_but: bool) -> Option<RelView> {
    if all_but {
        if input.has_heading() {
            Some(
                RelView::Project {
                    input: Box::new(input),
                    keep: other_names(input.heading(), listed),
                },
            )
        } else {
            None
        }
    } else {
        Some(RelView::Project { input: Box::new(input), keep: listed })
    }
}

/// The operand with attributes replaced by values computed from them.
pub open spec fn replacement(input: RelView, pairs: Seq<(String, Expr)>) -> Option<RelView> {
    if input.has_heading() {
        match scalars_of(pairs, pairs.len(), input.heading()) {
            Some(extends) => Some(substituted(input, extends, read_by(extends))),
            None => None,
        }
    } else {
        None
    }
}

/// The operand with computed attributes added.
pub open spec fn extension(input: RelView, pairs: Seq<(String, Expr)>) -> Option<RelView> {
    if input.has_heading() {
        match scalars_of(pairs, pairs.len(), input.heading()) {
            Some(extends) => Some(RelView::Extend { input: Box::new(input), extends }),
            None => None,
        }
    } else {
        None
    }
}

/// The closure of the operand, narrowed to the named attributes when there are
/// any.
pub open spec fn closure(input: RelView, attrs: Seq<Name>) -> RelView {
    if attrs.len() == 0 {
        RelView::TClose { input: Box::new(input) }
    } else {
        RelView::TClose {
            input: Box::new(RelView::Project { input: Box::new(input), keep: attrs }),
        }
    }
}

/// Whether a restriction stands anywhere in the expression.
pub open spec fn has_restrict(e: RelView) -> bool
    decreases e,
{
    match e {
        RelView::Restrict { .. } => true,
        RelView::Project { input, .. } => has_restrict(*input),
        RelView::Rename { input, .. } => has_restrict(*input),
        RelView::Extend { input, .. } => has_restrict(*input),
        RelView::TClose { input } => has_restrict(*input),
        RelView::Wrap { input, .. } => has_restrict(*input),
        RelView::Unwrap { input, .. } => has_restrict(*input),
        RelView::Group { input, .. } => has_restrict(*input),
        RelView::Ungroup { input, .. } => has_restrict(*input),
        RelView::And { lhs, rhs } => has_restrict(*lhs) || has_restrict(*rhs),
        RelView::Or { lhs, rhs } => has_restrict(*lhs) || has_restrict(*rhs),
        RelView::Minus { lhs, rhs } => has_restrict(*lhs) || has_restrict(*rhs),
        RelView::Otherwise { primary, fallback } => {
            has_restrict(*primary) || has_restrict(*fallback)
        },
        RelView::Semijoin { lhs, rhs, .. } => has_restrict(*lhs) || has_restrict(*rhs),
        RelView::RelvarRef { .. } => false,
        RelView::MaterializedRelvar { .. } => false,
        RelView::RelParam { .. } => false,
    }
}

/// The public relvar that the expression is rooted in, by its left operands.
pub open spec fn root_name(e: RelView) -> Option<Name>
    decreases e,
{
    match e {
        RelView::RelvarRef { name, .. } => Some(name),
        RelView::Restrict { input, .. } => root_name(*input),
        RelView::Project { input, .. } => root_name(*input),
        RelView::Rename { input, .. } => root_name(*input),
        RelView::Extend { input, .. } => root_name(*input),
        RelView::TClose { input } => root_name(*input),
        RelView::Wrap { input, .. } => root_name(*input),
        RelView::Unwrap { input, .. } => root_name(*input),
        RelView::Group { input, .. } => root_name(*input),
        RelView::Ungroup { input, .. } => root_name(*input),
        RelView::And { lhs, .. } => root_name(*lhs),
        RelView::Or { lhs, .. } => root_name(*lhs),
        RelView::Minus { lhs, .. } => root_name(*lhs),
        RelView::Otherwise { primary, .. } => root_name(*primary),
        RelView::Semijoin { lhs, .. } => root_name(*lhs),
        RelView::MaterializedRelvar { .. } => None,
        RelView::RelParam { .. } => None,
    }
}

/// The comparison that an operator makes.
pub fn test_operator(op: BinaryOp) -> (r: Option<CmpOp>)
    ensures
        r == test_of(op),
{
    match op {
        BinaryOp::Eq => Some(CmpOp::Eq),
        BinaryOp::NotEq => Some(CmpOp::Ne),
        BinaryOp::Lt => Some(CmpOp::Lt),
        BinaryOp::LtEq => Some(CmpOp::LtEq),
        BinaryOp::Gt => Some(CmpOp::Gt),
        BinaryOp::GtEq => Some(CmpOp::GtEq),
        _ => None,
    }
}

/// The name, when the expression is a bare name.
pub fn attr_ref_name(e: &Expr) -> (r: Option<String>)
    ensures
        attr_ref(*e) == match r {
            Some(name) => Some(name@),
            None => None::<Name>,
        },
{
    match &e.kind {
        ExprKind::NameRef(name) => Some(name.clone()),
        _ => None,
    }
}

/// The value of an integer, text or boolean literal.
pub fn literal_value(e: &Expr) -> (r: Option<Literal>)
    ensures
        literal_of(*e) == match r {
            Some(l) => Some(l@),
            None => None::<LiteralView>,
        },
{
    match &e.kind {
        ExprKind::Literal(Lit::Integer(text)) => match parse_integer(text.as_str()) {
            Some(n) => Some(Literal::Integer(n)),
            None => None,
        },
        ExprKind::Literal(Lit::Str(text)) => match decode_string(text.as_str()) {
            Some(s) => Some(Literal::Text(s)),
            None => None,
        },
        ExprKind::BoolLit(b) => Some(Literal::Boolean(*b)),
        _ => None,
    }
}

/// The test `attr op literal` over attributes of the heading, with the operator
/// turned round for `literal op attr`.
pub fn build_predicate(e: &Expr, h: &Heading) -> (r: Option<Predicate>)
    ensures
        predicate_of(*e, h@) == match r {
            Some(p) => Some(p@),
            None => None::<PredicateView>,
        },
{
    match &e.kind {
        ExprKind::Binary { op, lhs, rhs } => match test_operator(*op) {
            Some(test) => match (attr_ref_name(lhs), attr_ref_name(rhs)) {
                (Some(attr), None) => build_attr_test(attr, test, rhs, h),
                (None, Some(attr)) => build_attr_test(attr, test.flip(), lhs, h),
                _ => None,
            },
            None => None,
        },
        _ => None,
    }
}

fn build_attr_test(attr: String, op: CmpOp, literal: &Expr, h: &Heading) -> (r: Option<Predicate>)
    ensures
        attr_test(attr@, op, *literal, h@) == match r {
            Some(p) => Some(p@),
            None => None::<PredicateView>,
        },
{
    match (h.lookup(attr.as_str()), literal_value(literal)) {
        (Some(_), Some(l)) => Some(
            Predicate::AttrCmp { attr, op, value: RestrictValue::Lit(l) },
        ),
        _ => None,
    }
}

/// What a list of tests stands for.
pub open spec fn predicates_view(s: Seq<Predicate>) -> Seq<PredicateView> {
    Seq::new(s.len(), |i: int| s[i]@)
}

/// Adds the tests that a chain of `and` joins, from left to right; tells
/// whether all of them are tests.
pub fn collect_conjuncts(e: &Expr, h: &Heading, out: &mut Vec<Predicate>) -> (r: bool)
    ensures
        r == (conjuncts_of(*e, h@) is Some),
        r ==> predicates_view(final(out)@) == predicates_view(old(out)@) + conjuncts_of(*e, h@)->0,
    decreases e,
{
    let ghost was = predicates_view(out@);
    match &e.kind {
        ExprKind::Binary { op: BinaryOp::And, lhs, rhs } => {
            let r = collect_conjuncts(lhs, h, out) && collect_conjuncts(rhs, h, out);
            proof {
                if r {
                    assert(predicates_view(out@) =~= was + conjuncts_of(*e, h@)->0);
                }
            }
            r
        },
        _ => match build_predicate(e, h) {
            Some(p) => {
                out.push(p);
                assert(predicates_view(out@) =~= was + seq![p@]);
                true
            },
            None => false,
        },
    }
}

fn restrict_all(input: RelExpr, preds: Vec<Predicate>) -> (r: RelExpr)
    ensures
        r@ == restricted(input@, predicates_view(preds@)),
{
    let ghost ps = predicates_view(preds@);
    let ghost base = input@;
    let mut r = input;
    let mut i: usize = 0;
    while i < preds.len()
        invariant
            i <= preds.len(),
            ps == predicates_view(preds@),
            r@ == restricted(base, ps.take(i as int)),
        decreases preds.len() - i,
    {
        proof {
            let t = ps.take(i as int + 1);
            assert(t.drop_last() =~= ps.take(i as int));
            assert(t.last() == preds@[i as int]@);
        }
        r = RelExpr::Restrict { input: Box::new(r), pred: preds[i].clone() };
        i += 1;
    }
    assert(ps.take(i as int) =~= ps);
    r
}

/// The scalar expression over attributes and literals.
pub fn build_scalar_expr(e: &Expr) -> (r: Option<ScalarExpr>)
    ensures
        scalar_of(*e) == match r {
            Some(x) => Some(x@),
            None => None::<ScalarView>,
        },
    decreases e,
{
    match &e.kind {
        ExprKind::NameRef(name) => Some(ScalarExpr::Attr(name.clone())),
        ExprKind::Literal(Lit::Integer(text)) => match parse_integer(text.as_str()) {
            Some(n) => Some(ScalarExpr::Int(n)),
            None => None,
        },
        ExprKind::Literal(Lit::Str(text)) => match decode_string(text.as_str()) {
            Some(s) => Some(ScalarExpr::Str(s)),
            None => None,
        },
        ExprKind::Literal(Lit::Char(text)) => match decode_char(text.as_str()) {
            Some(c) => Some(ScalarExpr::Char(c)),
            None => None,
        },
        ExprKind::Binary { op, lhs, rhs } => {
            let op = match op {
                BinaryOp::Add => ScalarBinOp::Add,
                BinaryOp::Sub => ScalarBinOp::Sub,
                BinaryOp::Mul => ScalarBinOp::Mul,
                BinaryOp::Div => ScalarBinOp::Div,
                BinaryOp::Concat => ScalarBinOp::Concat,
                _ => {
                    return None;
                },
            };
            match (build_scalar_expr(lhs), build_scalar_expr(rhs)) {
                (Some(lhs), Some(rhs)) => Some(
                    ScalarExpr::Bin { op, lhs: Box::new(lhs), rhs: Box::new(rhs) },
                ),
                _ => None,
            }
        },
        _ => None,
    }
}

/// The type of a scalar expression over attributes of the heading.
pub fn scalar_result_type(e: &ScalarExpr, h: &Heading) -> (r: Type)
    ensures
        r@ == scalar_type(e@, h@),
{
    match e {
        ScalarExpr::Attr(name) => match h.lookup(name.as_str()) {
            Some(t) => t.clone(),
            None => Type::Unknown,
        },
        ScalarExpr::Int(_) => Type::Integer,
        ScalarExpr::Str(_) => Type::Text,
        ScalarExpr::Char(_) => Type::Character,
        ScalarExpr::Bin { op, .. } => match op {
            ScalarBinOp::Concat => Type::Text,
            _ => Type::Integer,
        },
    }
}

/// Adds the attributes that a scalar expression reads.
pub fn scalar_attr_refs(e: &ScalarExpr, into: &mut Vec<String>)
    ensures
        names_of(final(into)@) == names_of(old(into)@) + refs_of(e@),
    decreases e,
{
    let ghost was = names_of(into@);
    match e {
        ScalarExpr::Attr(name) => {
            into.push(name.clone());
            assert(names_of(into@) =~= was + seq![name@]);
        },
        ScalarExpr::Bin { lhs, rhs, .. } => {
            scalar_attr_refs(lhs, into);
            scalar_attr_refs(rhs, into);
            assert(names_of(into@) =~= was + (refs_of(lhs@) + refs_of(rhs@)));
        },
        _ => {
            assert(was + Seq::empty() =~= was);
        },
    }
}

proof fn lemma_scalars_prefix(pairs: Seq<(String, Expr)>, n: nat, m: nat, h: HeadingView)
    requires
        n <= m,
        scalars_of(pairs, n, h) is None,
    ensures
        scalars_of(pairs, m, h) is None,
    decreases m,
{
    if n < m {
        lemma_scalars_prefix(pairs, n, (m - 1) as nat, h);
    }
}

/// The pairs as computed attributes.
pub fn build_scalars(pairs: &Vec<(String, Expr)>, h: &Heading) -> (r: Option<
    Vec<(String, Type, ScalarExpr)>,
>)
    ensures
        scalars_of(pairs@, pairs@.len(), h@) == match r {
            Some(v) => Some(extends_view(v@)),
            None => None::<Seq<(Name, TypeView, ScalarView)>>,
        },
{
    let mut out: Vec<(String, Type, ScalarExpr)> = Vec::new();
    let mut i: usize = 0;
    assert(extends_view(out@) =~= Seq::empty());
    while i < pairs.len()
        invariant
            i <= pairs.len(),
            scalars_of(pairs@, i as nat, h@) == Some(extends_view(out@)),
        decreases pairs.len() - i,
    {
        match build_scalar_expr(&pairs[i].1) {
            Some(x) => {
                let ghost was = extends_view(out@);
                let ty = scalar_result_type(&x, h);
                let ghost seen = (pairs@[i as int].0@, ty@, x@);
                out.push((pairs[i].0.clone(), ty, x));
                assert(extends_view(out@) =~= was.push(seen));
            },
            None => {
                proof {
                    lemma_scalars_prefix(pairs@, (i + 1) as nat, pairs@.len(), h@);
                }
                return None;
            },
        }
        i += 1;
    }
    Some(out)
}

/// The attributes that the computed attributes read.
fn read_names(extends: &Vec<(String, Type, ScalarExpr)>) -> (r: Vec<String>)
    ensures
        names_of(r@) == read_by(extends_view(extends@)),
{
    let ghost xs = extends_view(extends@);
    let mut r: Vec<String> = Vec::new();
    let mut i: usize = 0;
    assert(names_of(r@) =~= Seq::empty());
    while i < extends.len()
        invariant
            i <= extends.len(),
            xs == extends_view(extends@),
            names_of(r@) == read_by(xs.take(i as int)),
        decreases extends.len() - i,
    {
        proof {
            let t = xs.take(i as int + 1);
            assert(t.drop_last() =~= xs.take(i as int));
            assert(t.last() == xs[i as int]);
        }
        scalar_attr_refs(&extends[i].2, &mut r);
        i += 1;
    }
    assert(xs.take(i as int) =~= xs);
    r
}

/// The name under which a new value is first computed.
pub fn substitute_name(h: &Heading, new: &str) -> (r: String)
    ensures
        r@ == sub_name(h@, new@),
{
    if h.lookup(new).is_some() {
        let mut r = "__coddl_replace_tmp_".to_owned();
        r.append(new);
        r
    } else {
        new.to_owned()
    }
}

/// The names under which new values are first computed.
pub fn substitute_names(h: &Heading, names: &Vec<String>) -> (r: Vec<String>)
    ensures
        names_of(r@) == sub_names(h@, names_of(names@)),
{
    let mut r: Vec<String> = Vec::new();
    let mut i: usize = 0;
    while i < names.len()
        invariant
            i <= names.len(),
            r.len() == i,
            forall|j: int| 0 <= j < i ==> (#[trigger] r@[j])@ == sub_name(h@, names@[j]@),
        decreases names.len() - i,
    {
        r.push(substitute_name(h, names[i].as_str()));
        i += 1;
    }
    assert(names_of(r@) =~= sub_names(h@, names_of(names@)));
    r
}

/// The renames that give new values their names.
pub fn substitute_renames(h: &Heading, names: &Vec<String>) -> (r: Vec<(String, String)>)
    ensures
        name_pairs_of(r@) == sub_renames(h@, names_of(names@)),
{
    let ghost ns = names_of(names@);
    let mut r: Vec<(String, String)> = Vec::new();
    let mut i: usize = 0;
    assert(name_pairs_of(r@) =~= Seq::empty());
    while i < names.len()
        invariant
            i <= names.len(),
            ns == names_of(names@),
            name_pairs_of(r@) == sub_renames(h@, ns.take(i as int)),
        decreases names.len() - i,
    {
        proof {
            let t = ns.take(i as int + 1);
            assert(t.drop_last() =~= ns.take(i as int));
            assert(t.last() == names@[i as int]@);
        }
        if h.lookup(names[i].as_str()).is_some() {
            let ghost was = name_pairs_of(r@);
            let name = substitute_name(h, names[i].as_str());
            let ghost seen = (name@, names@[i as int]@);
            r.push((name, names[i].clone()));
            assert(name_pairs_of(r@) =~= was.push(seen));
        }
        i += 1;
    }
    assert(ns.take(i as int) =~= ns);
    r
}

/// The names that are not among the others, in order.
pub fn names_without(names: &Vec<String>, others: &Vec<String>) -> (r: Vec<String>)
    ensures
        names_of(r@) == names_of(names@).filter(|n: Name| !names_of(others@).contains(n)),
{
    let ghost ns = names_of(names@);
    let ghost keep = |n: Name| !names_of(others@).contains(n);
    let mut r: Vec<String> = Vec::new();
    let mut i: usize = 0;
    proof {
        reveal_with_fuel(Seq::filter, 1);
        assert(names_of(r@) =~= Seq::empty());
    }
    while i < names.len()
        invariant
            i <= names.len(),
            ns == names_of(names@),
            keep == (|n: Name| !names_of(others@).contains(n)),
            names_of(r@) == ns.take(i as int).filter(keep),
        decreases names.len() - i,
    {
        proof {
            reveal_with_fuel(Seq::filter, 1);
            let t = ns.take(i as int + 1);
            assert(t.drop_last() =~= ns.take(i as int));
            assert(t.last() == names@[i as int]@);
        }
        if !has_name(others, names[i].as_str()) {
            let ghost was = names_of(r@);
            r.push(names[i].clone());
            assert(names_of(r@) =~= was.push(names@[i as int]@));
        }
        i += 1;
    }
    assert(ns.take(i as int) =~= ns);
    r
}

/// The names of the first list, then those of the second.
fn join_names(a: Vec<String>, b: &Vec<String>) -> (r: Vec<String>)
    ensures
        names_of(r@) == names_of(a@) + names_of(b@),
{
    let ghost was = names_of(a@);
    let mut r = a;
    let mut i: usize = 0;
    assert(names_of(r@) =~= was + names_of(b@).take(0));
    while i < b.len()
        invariant
            i <= b.len(),
            names_of(r@) == was + names_of(b@).take(i as int),
        decreases b.len() - i,
    {
        let ghost mid = names_of(r@);
        r.push(b[i].clone());
        proof {
            assert(names_of(r@) =~= mid.push(b@[i as int]@));
            assert(names_of(r@) =~= was + names_of(b@).take(i as int + 1));
        }
        i += 1;
    }
    assert(names_of(b@).take(i as int) =~= names_of(b@));
    r
}

/// The attributes kept beside new values: all that are not removed.
pub fn substitute_keep(h: &Heading, names: &Vec<String>, removed: &Vec<String>) -> (r: Vec<String>)
    ensures
        names_of(r@) == sub_keep(h@, names_of(names@), names_of(removed@)),
{
    let all = join_names(h.names(), &substitute_names(h, names));
    names_without(&all, removed)
}

/// The names that values come with.
fn extension_names(extends: &Vec<(String, Type, ScalarExpr)>) -> (r: Vec<String>)
    ensures
        names_of(r@) == pair_names(extends_view(extends@)),
{
    let mut r: Vec<String> = Vec::new();
    let mut i: usize = 0;
    while i < extends.len()
        invariant
            i <= extends.len(),
            r.len() == i,
            forall|j: int| 0 <= j < i ==> (#[trigger] r@[j])@ == extends@[j].0@,
        decreases extends.len() - i,
    {
        r.push(extends[i].0.clone());
        i += 1;
    }
    assert(names_of(r@) =~= pair_names(extends_view(extends@)));
    r
}

/// The operand with attributes overwritten.
pub fn build_substitute_chain(
    input: RelExpr,
    pairs: &Vec<(String, Type, ScalarExpr)>,
    removed: &Vec<String>,
) -> (r: RelExpr)
    requires
        input@.has_heading(),
    ensures
        r@ == substituted(input@, extends_view(pairs@), names_of(removed@)),
{
    let ghost base = input@;
    let h = input.heading();
    let names = extension_names(pairs);
    let ghost xs = extends_view(pairs@);
    let keep = substitute_keep(&h, &names, removed);
    let renames = substitute_renames(&h, &names);
    let mut extends: Vec<(String, Type, ScalarExpr)> = Vec::new();
    let mut i: usize = 0;
    while i < pairs.len()
        invariant
            i <= pairs.len(),
            extends.len() == i,
            forall|j: int|
                0 <= j < i ==> (#[trigger] extends@[j]).0@ == sub_name(h@, pairs@[j].0@)
                    && extends@[j].1@ == pairs@[j].1@ && extends@[j].2@ == pairs@[j].2@,
        decreases pairs.len() - i,
    {
        extends.push(
            (substitute_name(&h, pairs[i].0.as_str()), pairs[i].1.clone(), pairs[i].2.clone()),
        );
        i += 1;
    }
    assert(extends_view(extends@) =~= Seq::new(
        xs.len(),
        |i: int| (sub_name(h@, xs[i].0), xs[i].1, xs[i].2),
    ));
    let inner = RelExpr::Extend { input: Box::new(input), extends };
    assert(inner@ == (RelView::Extend { input: Box::new(base), extends: extends_view(extends@) }));
    let body = RelExpr::Project { input: Box::new(inner), keep };
    assert(body@ == (RelView::Project { input: Box::new(inner@), keep: names_of(keep@) }));
    assert(name_pairs_of(renames@).len() == renames.len());
    if renames.len() == 0 {
        body
    } else {
        RelExpr::Rename { input: Box::new(body), renames }
    }
}

/// The new names of a wrap with the headings of their components.
pub fn wrap_spec(h: &Heading, wraps: &Vec<(String, Vec<String>)>) -> (r: Vec<(String, Heading)>)
    ensures
        named_headings(r@) == wraps_of(h@, wraps@),
{
    let mut r: Vec<(String, Heading)> = Vec::new();
    let mut i: usize = 0;
    while i < wraps.len()
        invariant
            i <= wraps.len(),
            r.len() == i,
            forall|j: int|
                0 <= j < i ==> (#[trigger] r@[j]).0@ == wraps@[j].0@ && r@[j].1@ == canonical(
                    picked(h@, names_of(wraps@[j].1@)),
                ),
        decreases wraps.len() - i,
    {
        let comps = pick_attrs(h, &wraps[i].1);
        r.push((wraps[i].0.clone(), Heading::new(comps)));
        i += 1;
    }
    assert(named_headings(r@) =~= wraps_of(h@, wraps@));
    r
}

fn pick_attrs(h: &Heading, names: &Vec<String>) -> (r: Vec<(String, Type)>)
    ensures
        attrs_view(r@) == picked(h@, names_of(names@)),
{
    let ghost ns = names_of(names@);
    let mut r: Vec<(String, Type)> = Vec::new();
    let mut i: usize = 0;
    assert(attrs_view(r@) =~= Seq::empty());
    while i < names.len()
        invariant
            i <= names.len(),
            ns == names_of(names@),
            attrs_view(r@) == picked(h@, ns.take(i as int)),
        decreases names.len() - i,
    {
        proof {
            let t = ns.take(i as int + 1);
            assert(t.drop_last() =~= ns.take(i as int));
            assert(t.last() == names@[i as int]@);
        }
        if let Some(t) = h.lookup(names[i].as_str()) {
            let ghost was = attrs_view(r@);
            let ghost seen = (names@[i as int]@, t@);
            r.push((names[i].clone(), t.clone()));
            assert(attrs_view(r@) =~= was.push(seen));
        }
        i += 1;
    }
    assert(ns.take(i as int) =~= ns);
    r
}

/// The attributes that stand in exactly one of the two headings.
pub fn compose_keep(lhs: &Heading, rhs: &Heading) -> (r: Option<Vec<String>>)
    ensures
        r is Some <==> headings_agree(lhs@, rhs@),
        r matches Some(names) ==> names_of(names@) == compose_names(lhs@, rhs@),
{
    match lhs.union(rhs) {
        Some(h) => Some(names_without(&h.names(), &lhs.shared_names(rhs))),
        None => None,
    }
}

/// Whether a restriction stands anywhere in the expression.
pub fn contains_restrict(e: &RelExpr) -> (r: bool)
    ensures
        r == has_restrict(e@),
    decreases e,
{
    match e {
        RelExpr::Restrict { .. } => true,
        RelExpr::Project { input, .. } => contains_restrict(input),
        RelExpr::Rename { input, .. } => contains_restrict(input),
        RelExpr::Extend { input, .. } => contains_restrict(input),
        RelExpr::TClose { input } => contains_restrict(input),
        RelExpr::Wrap { input, .. } => contains_restrict(input),
        RelExpr::Unwrap { input, .. } => contains_restrict(input),
        RelExpr::Group { input, .. } => contains_restrict(input),
        RelExpr::Ungroup { input, .. } => contains_restrict(input),
        RelExpr::And { lhs, rhs } => contains_restrict(lhs) || contains_restrict(rhs),
        RelExpr::Or { lhs, rhs } => contains_restrict(lhs) || contains_restrict(rhs),
        RelExpr::Minus { lhs, rhs } => contains_restrict(lhs) || contains_restrict(rhs),
        RelExpr::Otherwise { primary, fallback } => {
            contains_restrict(primary) || contains_restrict(fallback)
        },
        RelExpr::Semijoin { lhs, rhs, .. } => contains_restrict(lhs) || contains_restrict(rhs),
        RelExpr::RelvarRef { .. } => false,
        RelExpr::MaterializedRelvar { .. } => false,
        RelExpr::RelParam { .. } => false,
    }
}

/// The public relvar that the expression is rooted in, by its left operands.
pub fn relvar_root_name(e: &RelExpr) -> (r: Option<String>)
    ensures
        root_name(e@) == match r {
            Some(name) => Some(name@),
            None => None::<Name>,
        },
    decreases e,
{
    match e {
        RelExpr::RelvarRef { name, .. } => Some(name.clone()),
        RelExpr::Restrict { input, .. } => relvar_root_name(input),
        RelExpr::Project { input, .. } => relvar_root_name(input),
        RelExpr::Rename { input, .. } => relvar_root_name(input),
        RelExpr::Extend { input, .. } => relvar_root_name(input),
        RelExpr::TClose { input } => relvar_root_name(input),
        RelExpr::Wrap { input, .. } => relvar_root_name(input),
        RelExpr::Unwrap { input, .. } => relvar_root_name(input),
        RelExpr::Group { input, .. } => relvar_root_name(input),
        RelExpr::Ungroup { input, .. } => relvar_root_name(input),
        RelExpr::And { lhs, .. } => relvar_root_name(lhs),
        RelExpr::Or { lhs, .. } => relvar_root_name(lhs),
        RelExpr::Minus { lhs, .. } => relvar_root_name(lhs),
        RelExpr::Otherwise { primary, .. } => relvar_root_name(primary),
        RelExpr::Semijoin { lhs, .. } => relvar_root_name(lhs),
        RelExpr::MaterializedRelvar { .. } => None,
        RelExpr::RelParam { .. } => None,
    }
}

fn build_restriction(input: RelExpr, condition: &Expr) -> (r: Option<RelExpr>)
    ensures
        maybe_rel(r) == restriction(input@, *condition),
{
    match input.checked_heading() {
        Some(h) => {
            let mut preds: Vec<Predicate> = Vec::new();
            if collect_conjuncts(condition, &h, &mut preds) {
                proof {
                    let ps = conjuncts_of(*condition, h@)->0;
                    assert(predicates_view(preds@) =~= ps);
                }
                Some(restrict_all(input, preds))
            } else {
                None
            }
        },
        None => None,
    }
}

fn build_combination(op: BinaryOp, lhs: RelExpr, rhs: RelExpr) -> (r: Option<RelExpr>)
    ensures
        maybe_rel(r) == combination(op, lhs@, rhs@),
{
    proof {
        reveal_with_fuel(RelExpr::view, 3);
    }
    match op {
        BinaryOp::Join | BinaryOp::Times | BinaryOp::Intersect => Some(
            RelExpr::And { lhs: Box::new(lhs), rhs: Box::new(rhs) },
        ),
        BinaryOp::Union => Some(RelExpr::Or { lhs: Box::new(lhs), rhs: Box::new(rhs) }),
        BinaryOp::Minus => Some(RelExpr::Minus { lhs: Box::new(lhs), rhs: Box::new(rhs) }),
        BinaryOp::Compose => match (lhs.checked_heading(), rhs.checked_heading()) {
            (Some(a), Some(b)) => match compose_keep(&a, &b) {
                Some(keep) => {
                    let joined = RelExpr::And { lhs: Box::new(lhs), rhs: Box::new(rhs) };
                    Some(RelExpr::Project { input: Box::new(joined), keep })
                },
                None => None,
            },
            _ => None,
        },
        _ => None,
    }
}

fn build_projection(input: RelExpr, listed: &Vec<String>, all_but: bool) -> (r: Option<RelExpr>)
    ensures
        maybe_rel(r) == projection(input@, names_of(listed@), all_but),
{
    if all_but {
        match input.checked_heading() {
            Some(h) => {
                let keep = names_without(&h.names(), listed);
                Some(RelExpr::Project { input: Box::new(input), keep })
            },
            None => None,
        }
    } else {
        Some(RelExpr::Project { input: Box::new(input), keep: copy_names(listed) })
    }
}

fn build_closure(input: RelExpr, attrs: &Vec<String>) -> (r: RelExpr)
    ensures
        r@ == closure(input@, names_of(attrs@)),
{
    proof {
        reveal_with_fuel(RelExpr::view, 3);
    }
    assert(names_of(attrs@).len() == attrs.len());
    if attrs.len() == 0 {
        RelExpr::TClose { input: Box::new(input) }
    } else {
        let narrowed = RelExpr::Project { input: Box::new(input), keep: copy_names(attrs) };
        RelExpr::TClose { input: Box::new(narrowed) }
    }
}

impl<const COLLECT: bool> Lowerer<COLLECT> {
    fn build_named(&self, name: &str) -> (r: Option<RelExpr>)
        ensures
            maybe_rel(r) == named_rel(self@, name@),
    {
        if let Some(rel) = self.alias(name) {
            return Some(rel);
        }
        if self.local(name).is_some() {
            return None;
        }
        if let Some(id) = self.private(name) {
            return Some(
                RelExpr::MaterializedRelvar { name: name.to_owned(), heading: self.heading_at(id) },
            );
        }
        match self.public(name) {
            Some((b, _)) => Some(
                RelExpr::RelvarRef {
                    name: b.name.clone(),
                    database: self.database(),
                    heading: self.heading_at(b.heading_id),
                    table_name: b.table_name.clone(),
                    columns: copy_pairs(&b.columns),
                    keys: copy_name_lists(&b.keys),
                },
            ),
            None => None,
        }
    }

    /// The relational expression of a syntax tree.
    pub fn build_rel_expr(&self, e: &Expr) -> (r: Option<RelExpr>)
        ensures
            maybe_rel(r) == built(self@, *e),
        decreases e,
    {
        match &e.kind {
            ExprKind::NameRef(name) => self.build_named(name.as_str()),
            ExprKind::Binary { op: BinaryOp::Where, lhs, rhs } => match self.build_rel_expr(lhs) {
                Some(input) => build_restriction(input, rhs),
                None => None,
            },
            ExprKind::Binary { op, lhs, rhs } => match (
                self.build_rel_expr(lhs),
                self.build_rel_expr(rhs),
            ) {
                (Some(l), Some(r)) => build_combination(*op, l, r),
                _ => None,
            },
            ExprKind::Project { input, attrs, all_but } => match self.build_rel_expr(input) {
                Some(input) => build_projection(input, attrs, *all_but),
                None => None,
            },
            ExprKind::Replace { input, pairs } => match self.build_rel_expr(input) {
                Some(input) => match input.checked_heading() {
                    Some(h) => match build_scalars(pairs, &h) {
                        Some(extends) => {
                            let removed = read_names(&extends);
                            Some(build_substitute_chain(input, &extends, &removed))
                        },
                        None => None,
                    },
                    None => None,
                },
                None => None,
            },
            ExprKind::Rename { input, renames } => match self.build_rel_expr(input) {
                Some(input) => Some(
                    RelExpr::Rename { input: Box::new(input), renames: copy_pairs(renames) },
                ),
                None => None,
            },
            ExprKind::Tclose { input, attrs } => match self.build_rel_expr(input) {
                Some(input) => Some(build_closure(input, attrs)),
                None => None,
            },
            ExprKind::Extend { input, pairs } => match self.build_rel_expr(input) {
                Some(input) => match input.checked_heading() {
                    Some(h) => match build_scalars(pairs, &h) {
                        Some(extends) => Some(RelExpr::Extend { input: Box::new(input), extends }),
                        None => None,
                    },
                    None => None,
                },
                None => None,
            },
            ExprKind::Wrap { input, wraps } => match self.build_rel_expr(input) {
                Some(input) => match input.checked_heading() {
                    Some(h) => {
                        let wraps = wrap_spec(&h, wraps);
                        Some(RelExpr::Wrap { input: Box::new(input), wraps })
                    },
                    None => None,
                },
                None => None,
            },
            ExprKind::Unwrap { input, attrs } => match self.build_rel_expr(input) {
                Some(input) => Some(
                    RelExpr::Unwrap { input: Box::new(input), names: copy_names(attrs) },
                ),
                None => None,
            },
            _ => None,
        }
    }
}

} // verus!
