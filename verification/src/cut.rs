//! Statements for the database, and the decision which relational expressions
//! it evaluates.
//!
//! The decision goes by where the data is rooted. An expression with a public
//! relvar among its leaves is evaluated by the database whenever a statement
//! can be written for it; one without is evaluated in-process.

use crate::rel_expr::{RelExpr, RelView, StorageOrigin};
use crate::types::{Heading, HeadingView};
use vstd::prelude::*;

verus! {

/// A value that a statement binds.
#[derive(Debug, PartialEq, Eq)]
pub enum Value {
    Integer(i64),
    Text(String),
    Boolean(bool),
}

/// What a [`Value`] stands for.
pub enum ValueView {
    Integer(int),
    Text(Seq<char>),
    Boolean(bool),
}

/// Where a bind value comes from.
#[derive(Debug, PartialEq, Eq)]
pub enum ParamSource {
    /// Known at compile time.
    Value(Value),
    /// A cell of the only row of a shipped relation.
    SlotCell { slot: usize, cell: usize },
}

/// What a [`ParamSource`] stands for.
pub enum ParamView {
    Value(ValueView),
    SlotCell { slot: int, cell: int },
}

/// A statement with what it binds and returns.
#[derive(Debug, PartialEq, Eq)]
pub struct SqlQuery {
    /// A number that is the same for the same text.
    pub plan_key: u64,
    pub text: String,
    /// How many values the text binds.
    pub param_count: u32,
    pub params: Vec<ParamSource>,
    /// The slots of the relations that are shipped with it.
    pub rel_params: Vec<usize>,
    /// The bind positions of tests that read no attribute.
    pub gate_params: Vec<usize>,
    /// The heading of the rows it returns.
    pub result_heading: Heading,
}

/// What a [`SqlQuery`] stands for.
pub struct QueryView {
    pub plan_key: u64,
    pub text: Seq<char>,
    pub param_count: u32,
    pub params: Seq<ParamView>,
    pub rel_params: Seq<usize>,
    pub gate_params: Seq<usize>,
    pub result_heading: HeadingView,
}

impl Value {
    pub open spec fn view(&self) -> ValueView {
        match self {
            Value::Integer(n) => ValueView::Integer(*n as int),
            Value::Text(s) => ValueView::Text(s@),
            Value::Boolean(b) => ValueView::Boolean(*b),
        }
    }

    /// Whether the two are the same value.
    pub fn same(&self, other: &Value) -> (r: bool)
        ensures
            r == (self@ == other@),
    {
        match (self, other) {
            (Value::Integer(a), Value::Integer(b)) => *a == *b,
            (Value::Text(a), Value::Text(b)) => *a == *b,
            (Value::Boolean(a), Value::Boolean(b)) => *a == *b,
            _ => false,
        }
    }
}

impl Clone for Value {
    fn clone(&self) -> (r: Self)
        ensures
            r@ == self@,
    {
        match self {
            Value::Integer(n) => Value::Integer(*n),
            Value::Text(s) => Value::Text(s.clone()),
            Value::Boolean(b) => Value::Boolean(*b),
        }
    }
}

impl ParamSource {
    pub open spec fn view(&self) -> ParamView {
        match self {
            ParamSource::Value(v) => ParamView::Value(v@),
            ParamSource::SlotCell { slot, cell } => ParamView::SlotCell {
                slot: *slot as int,
                cell: *cell as int,
            },
        }
    }

    /// Whether the two are the same source.
    pub fn same(&self, other: &ParamSource) -> (r: bool)
        ensures
            r == (self@ == other@),
    {
        match (self, other) {
            (ParamSource::Value(a), ParamSource::Value(b)) => a.same(b),
            (
                ParamSource::SlotCell { slot: a, cell: b },
                ParamSource::SlotCell { slot: c, cell: d },
            ) => *a == *c && *b == *d,
            _ => false,
        }
    }
}

impl Clone for ParamSource {
    fn clone(&self) -> (r: Self)
        ensures
            r@ == self@,
    {
        match self {
            ParamSource::Value(v) => ParamSource::Value(v.clone()),
            ParamSource::SlotCell { slot, cell } => ParamSource::SlotCell {
                slot: *slot,
                cell: *cell,
            },
        }
    }
}

/// What a list of bind sources stands for.
pub open spec fn sources_view(s: Seq<ParamSource>) -> Seq<ParamView> {
    Seq::new(s.len(), |i: int| s[i]@)
}

impl SqlQuery {
    pub open spec fn view(&self) -> QueryView {
        QueryView {
            plan_key: self.plan_key,
            text: self.text@,
            param_count: self.param_count,
            params: sources_view(self.params@),
            rel_params: self.rel_params@,
            gate_params: self.gate_params@,
            result_heading: self.result_heading@,
        }
    }
}

fn copy_slots(v: &Vec<usize>) -> (r: Vec<usize>)
    ensures
        r@ == v@,
{
    let mut r: Vec<usize> = Vec::new();
    let mut i: usize = 0;
    while i < v.len()
        invariant
            i <= v.len(),
            r@ == v@.take(i as int),
        decreases v.len() - i,
    {
        r.push(v[i]);
        assert(v@.take(i as int + 1) =~= v@.take(i as int).push(v@[i as int]));
        i += 1;
    }
    assert(v@.take(i as int) =~= v@);
    r
}

fn copy_sources(v: &Vec<ParamSource>) -> (r: Vec<ParamSource>)
    ensures
        sources_view(r@) == sources_view(v@),
{
    let mut r: Vec<ParamSource> = Vec::new();
    let mut i: usize = 0;
    while i < v.len()
        invariant
            i <= v.len(),
            r.len() == i,
            forall|j: int| 0 <= j < i ==> (#[trigger] r@[j])@ == v@[j]@,
        decreases v.len() - i,
    {
        r.push(v[i].clone());
        i += 1;
    }
    assert(sources_view(r@) =~= sources_view(v@));
    r
}

impl Clone for SqlQuery {
    fn clone(&self) -> (r: Self)
        ensures
            r@ == self@,
    {
        SqlQuery {
            plan_key: self.plan_key,
            text: self.text.clone(),
            param_count: self.param_count,
            params: copy_sources(&self.params),
            rel_params: copy_slots(&self.rel_params),
            gate_params: copy_slots(&self.gate_params),
            result_heading: self.result_heading.clone(),
        }
    }
}

/// The statements of an expression that the database evaluates: the general
/// one, and for an expression that qualifies the one to run instead when the
/// relation shipped in the dispatch slot holds exactly one row.
#[derive(Debug)]
pub struct PushedPlan {
    pub query: SqlQuery,
    /// The other statement, with its dispatch slot.
    pub card1_alt: Option<(SqlQuery, usize)>,
}

/// What a [`PushedPlan`] stands for.
pub struct PushedView {
    pub query: QueryView,
    pub card1_alt: Option<(QueryView, int)>,
}

impl PushedPlan {
    pub open spec fn view(&self) -> PushedView {
        PushedView {
            query: self.query@,
            card1_alt: match self.card1_alt {
                Some(alt) => Some((alt.0@, alt.1 as int)),
                None => None,
            },
        }
    }
}

/// What an optional statement stands for.
pub open spec fn maybe_query(q: Option<SqlQuery>) -> Option<QueryView> {
    match q {
        Some(q) => Some(q@),
        None => None,
    }
}

/// Whether an expression is offered to the database.
pub open spec fn is_offered(e: RelView) -> bool {
    e.origin() != StorageOrigin::Materialized
}

/// The plan of an expression, from the statement written for it and the one
/// written for its single-row rewriting; `None` where none could be written.
pub open spec fn pushed(e: RelView, emitted: Option<QueryView>, sibling: Option<QueryView>) -> Option<
    PushedView,
> {
    match emitted {
        Some(query) => if is_offered(e) {
            Some(
                PushedView {
                    query,
                    card1_alt: match sibling {
                        Some(alt) => if e.card1_applies() {
                            Some((alt, e.card1_slot()))
                        } else {
                            None
                        },
                        None => None,
                    },
                },
            )
        } else {
            None
        },
        None => None,
    }
}

/// Whether the single-row statement binds what the general one binds, in the
/// same places, and then only cells of shipped rows.
pub open spec fn binds_extend(general: Seq<ParamView>, alt: Seq<ParamView>) -> bool {
    &&& alt.len() > general.len()
    &&& alt.take(general.len() as int) == general
    &&& forall|i: int| general.len() <= i < alt.len() ==> (#[trigger] alt[i]) is SlotCell
}

/// Whether a statement can be run in the place of the general one when the
/// dispatch slot holds one row: it ships no relation, and binds what the general
/// one binds and then only cells.
pub open spec fn fits_general(general: QueryView, alt: QueryView) -> bool {
    &&& alt.rel_params.len() == 0
    &&& binds_extend(general.params, alt.params)
}

/// Whether the statements handed in for an expression that has a single-row
/// rewriting fit each other.
pub open spec fn siblings_fit(
    e: RelView,
    emitted: Option<QueryView>,
    sibling: Option<QueryView>,
) -> bool {
    match (emitted, sibling) {
        (Some(general), Some(alt)) => e.card1_applies() ==> fits_general(general, alt),
        _ => true,
    }
}

/// Whether a statement can be run in the place of the general one.
pub fn sibling_fits(general: &SqlQuery, alt: &SqlQuery) -> (r: bool)
    ensures
        r == fits_general(general@, alt@),
{
    if alt.rel_params.len() != 0 {
        return false;
    }
    let n: usize = general.params.len();
    if alt.params.len() <= n {
        return false;
    }
    let mut i: usize = 0;
    while i < n
        invariant
            i <= n < alt.params.len(),
            n == general.params.len(),
            forall|j: int| 0 <= j < i ==> (#[trigger] alt@.params[j]) == general@.params[j],
        decreases n - i,
    {
        if !alt.params[i].same(&general.params[i]) {
            proof {
                assert(alt@.params.take(n as int)[i as int] == alt.params@[i as int]@);
                assert(general@.params[i as int] == general.params@[i as int]@);
            }
            return false;
        }
        assert(alt@.params[i as int] == alt.params@[i as int]@);
        i += 1;
    }
    assert(alt@.params.take(n as int) =~= general@.params);
    while i < alt.params.len()
        invariant
            n <= i <= alt.params.len(),
            n == general.params.len(),
            forall|j: int| n <= j < i ==> (#[trigger] alt@.params[j]) is SlotCell,
        decreases alt.params.len() - i,
    {
        if let ParamSource::Value(_) = alt.params[i] {
            assert(!(alt@.params[i as int] is SlotCell));
            return false;
        }
        assert(alt@.params[i as int] is SlotCell);
        i += 1;
    }
    true
}

/// The plan of an expression, given the statement that could be written for it
/// (`emitted`) and the one for its
/// [single-row rewriting](RelExpr::card1_semijoin_specialization) (`sibling`).
/// `None` for an expression without a public relvar, and for one that no
/// statement could be written for: it is then evaluated in-process.
pub fn try_push(expr: &RelExpr, emitted: Option<SqlQuery>, sibling: Option<SqlQuery>) -> (r: Option<
    PushedPlan,
>)
    requires
        sibling is Some ==> expr@.rel_param_count() <= usize::MAX && expr@.has_card1(),
        siblings_fit(expr@, maybe_query(emitted), maybe_query(sibling)),
    ensures
        pushed(expr@, maybe_query(emitted), maybe_query(sibling)) == match r {
            Some(p) => Some(p@),
            None => None::<PushedView>,
        },
        r matches Some(p) ==> (p@.card1_alt matches Some(alt) ==> fits_general(p@.query, alt.0)),
{
    try_push_ordered(expr, emitted, sibling)
}

/// The plan of an expression whose rows are wanted in order; `emitted` is then
/// the ordered statement, where the order could be attached.
pub fn try_push_ordered(
    expr: &RelExpr,
    emitted: Option<SqlQuery>,
    sibling: Option<SqlQuery>,
) -> (r: Option<PushedPlan>)
    requires
        sibling is Some ==> expr@.rel_param_count() <= usize::MAX && expr@.has_card1(),
        siblings_fit(expr@, maybe_query(emitted), maybe_query(sibling)),
    ensures
        pushed(expr@, maybe_query(emitted), maybe_query(sibling)) == match r {
            Some(p) => Some(p@),
            None => None::<PushedView>,
        },
        r matches Some(p) ==> (p@.card1_alt matches Some(alt) ==> fits_general(p@.query, alt.0)),
{
    match expr.origin() {
        StorageOrigin::Materialized => None,
        _ => match emitted {
            Some(query) => {
                let card1_alt = card1_alt_of(expr, &query, sibling);
                Some(PushedPlan { query, card1_alt })
            },
            None => None,
        },
    }
}

/// The statement for the single-row case with its dispatch slot, when the
/// expression qualifies and the statement could be written. It binds the values of
/// the general statement, under the same numbers, and then the cells of the slot's
/// row.
pub fn card1_alt_of(expr: &RelExpr, general: &SqlQuery, sibling: Option<SqlQuery>) -> (r: Option<
    (SqlQuery, usize),
>)
    requires
        sibling is Some ==> expr@.rel_param_count() <= usize::MAX && expr@.has_card1(),
        siblings_fit(expr@, Some(general@), maybe_query(sibling)),
    ensures
        r is Some <==> expr@.card1_applies() && sibling is Some,
        r matches Some(alt) ==> {
            &&& alt.0@ == sibling->0@
            &&& alt.1 == expr@.card1_slot()
            &&& fits_general(general@, alt.0@)
        },
{
    match sibling {
        Some(alt) => match expr.card1_semijoin_specialization() {
            Some((_, slot)) => Some((alt, slot)),
            None => None,
        },
        None => None,
    }
}

/// An expression over in-process relations alone is never offered to the
/// database, whatever statement could be written for it.
pub proof fn law_materialized_stays_in_process(
    e: RelView,
    emitted: Option<QueryView>,
    sibling: Option<QueryView>,
)
    requires
        e.origin() == StorageOrigin::Materialized,
    ensures
        pushed(e, emitted, sibling) is None,
{
}

/// An expression with a public relvar is evaluated by the database as soon as
/// a statement can be written for it, in-process relations among its leaves or
/// not.
pub proof fn law_relvars_are_pushed(e: RelView, query: QueryView, sibling: Option<QueryView>)
    requires
        e.origin() != StorageOrigin::Materialized,
    ensures
        pushed(e, Some(query), sibling) is Some,
        pushed(e, Some(query), sibling)->0.query == query,
{
}

} // verus!
