//! The relational expression tree: relvar leaves and relation-valued
//! parameters under the restriction, projection, renaming, extension, join,
//! set, closure and nesting operators.

use crate::text::{copy_names, name_lists_of, name_pairs_of, names_of, Name};
use crate::types::{Heading, HeadingView, Type, TypeView};
use vstd::prelude::*;

verus! {

/// Where the data of an expression is rooted: the input of the decision
/// whether it can be evaluated by a database.
#[derive(Clone, Copy, Debug, PartialEq, Eq, Structural)]
pub enum StorageOrigin {
    /// Every leaf is a public relvar.
    RelvarRooted,
    /// No leaf is a public relvar; evaluated in-process.
    Materialized,
    /// Some leaves are public relvars and some are not.
    Mixed,
}

/// A relational-algebra expression.
#[derive(Debug, PartialEq, Eq)]
pub enum RelExpr {
    /// A public relvar: its application name, its database, its heading, the
    /// physical table with the `(attribute, column)` pairs, and its declared
    /// candidate keys.
    RelvarRef {
        name: String,
        database: String,
        heading: Heading,
        table_name: String,
        columns: Vec<(String, String)>,
        keys: Vec<Vec<String>>,
    },
    /// The tuples for which the predicate holds.
    Restrict { input: Box<RelExpr>, pred: Predicate },
    /// The tuples narrowed to the attributes of `keep`.
    Project { input: Box<RelExpr>, keep: Vec<String> },
    /// The tuples with attributes renamed, by `(old, new)` pairs.
    Rename { input: Box<RelExpr>, renames: Vec<(String, String)> },
    /// The tuples with computed attributes added.
    Extend { input: Box<RelExpr>, extends: Vec<(String, Type, ScalarExpr)> },
    /// Natural join.
    And { lhs: Box<RelExpr>, rhs: Box<RelExpr> },
    /// Union of two relations of one heading.
    Or { lhs: Box<RelExpr>, rhs: Box<RelExpr> },
    /// Difference of two relations of one heading.
    Minus { lhs: Box<RelExpr>, rhs: Box<RelExpr> },
    /// The first of two relations of one heading or, when it is empty, the
    /// second.
    Otherwise { primary: Box<RelExpr>, fallback: Box<RelExpr> },
    /// The tuples of `lhs` that match (`negated`: do not match) a tuple of
    /// `rhs` on the attributes they share.
    Semijoin { lhs: Box<RelExpr>, rhs: Box<RelExpr>, negated: bool },
    /// Transitive closure of a binary relation.
    TClose { input: Box<RelExpr> },
    /// Component attributes gathered into tuple-valued attributes.
    Wrap { input: Box<RelExpr>, wraps: Vec<(String, Heading)> },
    /// Tuple-valued attributes expanded into their components.
    Unwrap { input: Box<RelExpr>, names: Vec<String> },
    /// Component attributes gathered into relation-valued attributes, one
    /// tuple for each combination of the other attributes.
    Group { input: Box<RelExpr>, groups: Vec<(String, Heading)> },
    /// Relation-valued attributes expanded into one tuple for each choice of
    /// one tuple out of each of them.
    Ungroup { input: Box<RelExpr>, names: Vec<String> },
    /// A private, in-memory relvar.
    MaterializedRelvar { name: String, heading: Heading },
    /// A relation value shipped to the database when the query runs.
    RelParam { slot: usize, heading: Heading },
}

/// A test that a restriction makes.
#[derive(Debug, PartialEq, Eq)]
pub enum Predicate {
    /// `<attr> <op> <value>`.
    AttrCmp { attr: String, op: CmpOp, value: RestrictValue },
    /// A test that reads no attribute: every tuple passes, or none does.
    Gate(RestrictValue),
}

/// The value that a restriction compares with.
#[derive(Debug, PartialEq, Eq)]
pub enum RestrictValue {
    /// A value known at compile time.
    Lit(Literal),
    /// The run-time value of a local variable, by its name.
    Param(String),
    /// A cell of the only row of a relation parameter; `cell` counts its
    /// heading's attributes in canonical order.
    SlotCell { slot: usize, cell: usize },
}

/// A comparison operator of a restriction.
#[derive(Clone, Copy, Debug, PartialEq, Eq, Structural)]
pub enum CmpOp {
    Eq,
    Ne,
    Lt,
    LtEq,
    Gt,
    GtEq,
}

/// An approximate number: the bits of the IEEE-754 double, its scientific
/// notation and its decimal one.
#[derive(Debug, PartialEq, Eq)]
pub struct Approx {
    pub bits: u64,
    pub notation: String,
    pub decimal: String,
}

/// A literal of a predicate.
#[derive(Debug, PartialEq, Eq)]
pub enum Literal {
    Integer(i64),
    Text(String),
    /// A character, as its Unicode scalar value.
    Character(u32),
    Approximate(Approx),
    /// A reduced numerator and denominator.
    Rational(i64, i64),
    Boolean(bool),
}

/// A scalar expression, computed for each tuple by an extension.
#[derive(Debug, PartialEq, Eq)]
pub enum ScalarExpr {
    /// An attribute of the operand.
    Attr(String),
    Int(i64),
    Str(String),
    /// A character, as its Unicode scalar value.
    Char(u32),
    Bin { op: ScalarBinOp, lhs: Box<ScalarExpr>, rhs: Box<ScalarExpr> },
}

/// A binary operator of a scalar expression.
#[derive(Clone, Copy, Debug, PartialEq, Eq, Structural)]
pub enum ScalarBinOp {
    Add,
    Sub,
    Mul,
    Div,
    Concat,
}

/// What a [`Literal`] stands for.
pub enum LiteralView {
    Integer(int),
    Text(Seq<char>),
    Character(u32),
    Approximate { bits: u64, notation: Seq<char>, decimal: Seq<char> },
    Rational(int, int),
    Boolean(bool),
}

/// What a [`RestrictValue`] stands for.
pub enum RestrictValueView {
    Lit(LiteralView),
    Param(Name),
    SlotCell { slot: int, cell: int },
}

/// What a [`Predicate`] stands for.
pub enum PredicateView {
    AttrCmp { attr: Name, op: CmpOp, value: RestrictValueView },
    Gate(RestrictValueView),
}

/// What a [`ScalarExpr`] stands for.
pub enum ScalarView {
    Attr(Name),
    Int(int),
    Str(Seq<char>),
    Char(u32),
    Bin { op: ScalarBinOp, lhs: Box<ScalarView>, rhs: Box<ScalarView> },
}

/// What a [`RelExpr`] stands for.
pub enum RelView {
    RelvarRef {
        name: Name,
        database: Name,
        heading: HeadingView,
        table_name: Name,
        columns: Seq<(Name, Name)>,
        keys: Seq<Seq<Name>>,
    },
    Restrict { input: Box<RelView>, pred: PredicateView },
    Project { input: Box<RelView>, keep: Seq<Name> },
    Rename { input: Box<RelView>, renames: Seq<(Name, Name)> },
    Extend { input: Box<RelView>, extends: Seq<(Name, TypeView, ScalarView)> },
    And { lhs: Box<RelView>, rhs: Box<RelView> },
    Or { lhs: Box<RelView>, rhs: Box<RelView> },
    Minus { lhs: Box<RelView>, rhs: Box<RelView> },
    Otherwise { primary: Box<RelView>, fallback: Box<RelView> },
    Semijoin { lhs: Box<RelView>, rhs: Box<RelView>, negated: bool },
    TClose { input: Box<RelView> },
    Wrap { input: Box<RelView>, wraps: Seq<(Name, HeadingView)> },
    Unwrap { input: Box<RelView>, names: Seq<Name> },
    Group { input: Box<RelView>, groups: Seq<(Name, HeadingView)> },
    Ungroup { input: Box<RelView>, names: Seq<Name> },
    MaterializedRelvar { name: Name, heading: HeadingView },
    RelParam { slot: int, heading: HeadingView },
}

/// What a list of named headings stands for.
pub open spec fn named_headings(s: Seq<(String, Heading)>) -> Seq<(Name, HeadingView)> {
    Seq::new(s.len(), |i: int| (s[i].0@, s[i].1@))
}

/// What a list of extensions stands for.
pub open spec fn extends_view(s: Seq<(String, Type, ScalarExpr)>) -> Seq<
    (Name, TypeView, ScalarView),
> {
    Seq::new(s.len(), |i: int| (s[i].0@, s[i].1@, s[i].2@))
}

impl Literal {
    pub open spec fn view(&self) -> LiteralView {
        match self {
            Literal::Integer(n) => LiteralView::Integer(*n as int),
            Literal::Text(s) => LiteralView::Text(s@),
            Literal::Character(c) => LiteralView::Character(*c),
            Literal::Approximate(a) => LiteralView::Approximate {
                bits: a.bits,
                notation: a.notation@,
                decimal: a.decimal@,
            },
            Literal::Rational(n, d) => LiteralView::Rational(*n as int, *d as int),
            Literal::Boolean(b) => LiteralView::Boolean(*b),
        }
    }
}

impl Clone for Literal {
    fn clone(&self) -> (r: Self)
        ensures
            r@ == self@,
    {
        match self {
            Literal::Integer(n) => Literal::Integer(*n),
            Literal::Text(s) => Literal::Text(s.clone()),
            Literal::Character(c) => Literal::Character(*c),
            Literal::Approximate(a) => Literal::Approximate(
                Approx {
                    bits: a.bits,
                    notation: a.notation.clone(),
                    decimal: a.decimal.clone(),
                },
            ),
            Literal::Rational(n, d) => Literal::Rational(*n, *d),
            Literal::Boolean(b) => Literal::Boolean(*b),
        }
    }
}

impl RestrictValue {
    pub open spec fn view(&self) -> RestrictValueView {
        match self {
            RestrictValue::Lit(l) => RestrictValueView::Lit(l@),
            RestrictValue::Param(p) => RestrictValueView::Param(p@),
            RestrictValue::SlotCell { slot, cell } => RestrictValueView::SlotCell {
                slot: *slot as int,
                cell: *cell as int,
            },
        }
    }
}

impl Clone for RestrictValue {
    fn clone(&self) -> (r: Self)
        ensures
            r@ == self@,
    {
        match self {
            RestrictValue::Lit(l) => RestrictValue::Lit(l.clone()),
            RestrictValue::Param(p) => RestrictValue::Param(p.clone()),
            RestrictValue::SlotCell { slot, cell } => RestrictValue::SlotCell {
                slot: *slot,
                cell: *cell,
            },
        }
    }
}

impl Predicate {
    pub open spec fn view(&self) -> PredicateView {
        match self {
            Predicate::AttrCmp { attr, op, value } => PredicateView::AttrCmp {
                attr: attr@,
                op: *op,
                value: value@,
            },
            Predicate::Gate(v) => PredicateView::Gate(v@),
        }
    }
}

impl Clone for Predicate {
    fn clone(&self) -> (r: Self)
        ensures
            r@ == self@,
    {
        match self {
            Predicate::AttrCmp { attr, op, value } => Predicate::AttrCmp {
                attr: attr.clone(),
                op: *op,
                value: value.clone(),
            },
            Predicate::Gate(v) => Predicate::Gate(v.clone()),
        }
    }
}

impl ScalarExpr {
    pub open spec fn view(&self) -> ScalarView
        decreases self,
    {
        match self {
            ScalarExpr::Attr(a) => ScalarView::Attr(a@),
            ScalarExpr::Int(n) => ScalarView::Int(*n as int),
            ScalarExpr::Str(s) => ScalarView::Str(s@),
            ScalarExpr::Char(c) => ScalarView::Char(*c),
            ScalarExpr::Bin { op, lhs, rhs } => ScalarView::Bin {
                op: *op,
                lhs: Box::new(lhs.view()),
                rhs: Box::new(rhs.view()),
            },
        }
    }
}

impl Clone for ScalarExpr {
    fn clone(&self) -> (r: Self)
        ensures
            r@ == self@,
        decreases self,
    {
        match self {
            ScalarExpr::Attr(a) => ScalarExpr::Attr(a.clone()),
            ScalarExpr::Int(n) => ScalarExpr::Int(*n),
            ScalarExpr::Str(s) => ScalarExpr::Str(s.clone()),
            ScalarExpr::Char(c) => ScalarExpr::Char(*c),
            ScalarExpr::Bin { op, lhs, rhs } => ScalarExpr::Bin {
                op: *op,
                lhs: Box::new((**lhs).clone()),
                rhs: Box::new((**rhs).clone()),
            },
        }
    }
}

impl RelExpr {
    pub open spec fn view(&self) -> RelView
        decreases self,
    {
        match self {
            RelExpr::RelvarRef {
                name,
                database,
                heading,
                table_name,
                columns,
                keys,
            } => RelView::RelvarRef {
                name: name@,
                database: database@,
                heading: heading@,
                table_name: table_name@,
                columns: name_pairs_of(columns@),
                keys: name_lists_of(keys@),
            },
            RelExpr::Restrict { input, pred } => RelView::Restrict {
                input: Box::new(input.view()),
                pred: pred@,
            },
            RelExpr::Project { input, keep } => RelView::Project {
                input: Box::new(input.view()),
                keep: names_of(keep@),
            },
            RelExpr::Rename { input, renames } => RelView::Rename {
                input: Box::new(input.view()),
                renames: name_pairs_of(renames@),
            },
            RelExpr::Extend { input, extends } => RelView::Extend {
                input: Box::new(input.view()),
                extends: extends_view(extends@),
            },
            RelExpr::And { lhs, rhs } => RelView::And {
                lhs: Box::new(lhs.view()),
                rhs: Box::new(rhs.view()),
            },
            RelExpr::Or { lhs, rhs } => RelView::Or {
                lhs: Box::new(lhs.view()),
                rhs: Box::new(rhs.view()),
            },
            RelExpr::Minus { lhs, rhs } => RelView::Minus {
                lhs: Box::new(lhs.view()),
                rhs: Box::new(rhs.view()),
            },
            RelExpr::Otherwise { primary, fallback } => RelView::Otherwise {
                primary: Box::new(primary.view()),
                fallback: Box::new(fallback.view()),
            },
            RelExpr::Semijoin { lhs, rhs, negated } => RelView::Semijoin {
                lhs: Box::new(lhs.view()),
                rhs: Box::new(rhs.view()),
                negated: *negated,
            },
            RelExpr::TClose { input } => RelView::TClose { input: Box::new(input.view()) },
            RelExpr::Wrap { input, wraps } => RelView::Wrap {
                input: Box::new(input.view()),
                wraps: named_headings(wraps@),
            },
            RelExpr::Unwrap { input, names } => RelView::Unwrap {
                input: Box::new(input.view()),
                names: names_of(names@),
            },
            RelExpr::Group { input, groups } => RelView::Group {
                input: Box::new(input.view()),
                groups: named_headings(groups@),
            },
            RelExpr::Ungroup { input, names } => RelView::Ungroup {
                input: Box::new(input.view()),
                names: names_of(names@),
            },
            RelExpr::MaterializedRelvar { name, heading } => RelView::MaterializedRelvar {
                name: name@,
                heading: heading@,
            },
            RelExpr::RelParam { slot, heading } => RelView::RelParam {
                slot: *slot as int,
                heading: heading@,
            },
        }
    }
}

/// A copy of a list of string pairs.
pub fn copy_pairs(v: &Vec<(String, String)>) -> (r: Vec<(String, String)>)
    ensures
        name_pairs_of(r@) == name_pairs_of(v@),
{
    let mut r: Vec<(String, String)> = Vec::new();
    let mut i: usize = 0;
    while i < v.len()
        invariant
            i <= v.len(),
            r.len() == i,
            forall|j: int| 0 <= j < i ==> name_pairs_of(r@)[j] == name_pairs_of(v@)[j],
        decreases v.len() - i,
    {
        r.push((v[i].0.clone(), v[i].1.clone()));
        i += 1;
    }
    assert(name_pairs_of(r@) =~= name_pairs_of(v@));
    r
}

/// A copy of a list of string lists.
pub fn copy_name_lists(v: &Vec<Vec<String>>) -> (r: Vec<Vec<String>>)
    ensures
        name_lists_of(r@) == name_lists_of(v@),
{
    let mut r: Vec<Vec<String>> = Vec::new();
    let mut i: usize = 0;
    while i < v.len()
        invariant
            i <= v.len(),
            r.len() == i,
            forall|j: int| 0 <= j < i ==> name_lists_of(r@)[j] == name_lists_of(v@)[j],
        decreases v.len() - i,
    {
        r.push(copy_names(&v[i]));
        i += 1;
    }
    assert(name_lists_of(r@) =~= name_lists_of(v@));
    r
}

/// A copy of a list of named headings.
pub fn copy_named_headings(v: &Vec<(String, Heading)>) -> (r: Vec<(String, Heading)>)
    ensures
        named_headings(r@) == named_headings(v@),
{
    let mut r: Vec<(String, Heading)> = Vec::new();
    let mut i: usize = 0;
    while i < v.len()
        invariant
            i <= v.len(),
            r.len() == i,
            forall|j: int| 0 <= j < i ==> named_headings(r@)[j] == named_headings(v@)[j],
        decreases v.len() - i,
    {
        let h = v[i].1.clone();
        r.push((v[i].0.clone(), h));
        i += 1;
    }
    assert(named_headings(r@) =~= named_headings(v@));
    r
}

fn copy_extends(v: &Vec<(String, Type, ScalarExpr)>) -> (r: Vec<(String, Type, ScalarExpr)>)
    ensures
        extends_view(r@) == extends_view(v@),
{
    let mut r: Vec<(String, Type, ScalarExpr)> = Vec::new();
    let mut i: usize = 0;
    while i < v.len()
        invariant
            i <= v.len(),
            r.len() == i,
            forall|j: int| 0 <= j < i ==> extends_view(r@)[j] == extends_view(v@)[j],
        decreases v.len() - i,
    {
        let t = v[i].1.clone();
        let e = v[i].2.clone();
        r.push((v[i].0.clone(), t, e));
        i += 1;
    }
    assert(extends_view(r@) =~= extends_view(v@));
    r
}

impl Clone for RelExpr {
    fn clone(&self) -> (r: Self)
        ensures
            r@ == self@,
        decreases self,
    {
        match self {
            RelExpr::RelvarRef {
                name,
                database,
                heading,
                table_name,
                columns,
                keys,
            } => RelExpr::RelvarRef {
                name: name.clone(),
                database: database.clone(),
                heading: heading.clone(),
                table_name: table_name.clone(),
                columns: copy_pairs(columns),
                keys: copy_name_lists(keys),
            },
            RelExpr::Restrict { input, pred } => RelExpr::Restrict {
                input: Box::new((**input).clone()),
                pred: pred.clone(),
            },
            RelExpr::Project { input, keep } => RelExpr::Project {
                input: Box::new((**input).clone()),
                keep: copy_names(keep),
            },
            RelExpr::Rename { input, renames } => RelExpr::Rename {
                input: Box::new((**input).clone()),
                renames: copy_pairs(renames),
            },
            RelExpr::Extend { input, extends } => RelExpr::Extend {
                input: Box::new((**input).clone()),
                extends: copy_extends(extends),
            },
            RelExpr::And { lhs, rhs } => RelExpr::And {
                lhs: Box::new((**lhs).clone()),
                rhs: Box::new((**rhs).clone()),
            },
            RelExpr::Or { lhs, rhs } => RelExpr::Or {
                lhs: Box::new((**lhs).clone()),
                rhs: Box::new((**rhs).clone()),
            },
            RelExpr::Minus { lhs, rhs } => RelExpr::Minus {
                lhs: Box::new((**lhs).clone()),
                rhs: Box::new((**rhs).clone()),
            },
            RelExpr::Otherwise { primary, fallback } => RelExpr::Otherwise {
                primary: Box::new((**primary).clone()),
                fallback: Box::new((**fallback).clone()),
            },
            RelExpr::Semijoin { lhs, rhs, negated } => RelExpr::Semijoin {
                lhs: Box::new((**lhs).clone()),
                rhs: Box::new((**rhs).clone()),
                negated: *negated,
            },
            RelExpr::TClose { input } => RelExpr::TClose { input: Box::new((**input).clone()) },
            RelExpr::Wrap { input, wraps } => RelExpr::Wrap {
                input: Box::new((**input).clone()),
                wraps: copy_named_headings(wraps),
            },
            RelExpr::Unwrap { input, names } => RelExpr::Unwrap {
                input: Box::new((**input).clone()),
                names: copy_names(names),
            },
            RelExpr::Group { input, groups } => RelExpr::Group {
                input: Box::new((**input).clone()),
                groups: copy_named_headings(groups),
            },
            RelExpr::Ungroup { input, names } => RelExpr::Ungroup {
                input: Box::new((**input).clone()),
                names: copy_names(names),
            },
            RelExpr::MaterializedRelvar { name, heading } => RelExpr::MaterializedRelvar {
                name: name.clone(),
                heading: heading.clone(),
            },
            RelExpr::RelParam { slot, heading } => RelExpr::RelParam {
                slot: *slot,
                heading: heading.clone(),
            },
        }
    }
}

impl CmpOp {
    /// Whether `a OP b` holds, of two values by their order.
    pub open spec fn holds(self, a: int, b: int) -> bool {
        match self {
            CmpOp::Eq => a == b,
            CmpOp::Ne => a != b,
            CmpOp::Lt => a < b,
            CmpOp::LtEq => a <= b,
            CmpOp::Gt => a > b,
            CmpOp::GtEq => a >= b,
        }
    }

    /// The SQL spelling.
    pub open spec fn symbol(self) -> Seq<char> {
        match self {
            CmpOp::Eq => "="@,
            CmpOp::Ne => "<>"@,
            CmpOp::Lt => "<"@,
            CmpOp::LtEq => "<="@,
            CmpOp::Gt => ">"@,
            CmpOp::GtEq => ">="@,
        }
    }

    /// The SQL spelling.
    pub fn sql(self) -> (r: &'static str)
        ensures
            r@ == self.symbol(),
    {
        match self {
            CmpOp::Eq => "=",
            CmpOp::Ne => "<>",
            CmpOp::Lt => "<",
            CmpOp::LtEq => "<=",
            CmpOp::Gt => ">",
            CmpOp::GtEq => ">=",
        }
    }

    /// The operator for swapped operands: `a OP b` holds exactly when
    /// `b flip(OP) a` does.
    pub fn flip(self) -> (r: CmpOp)
        ensures
            forall|a: int, b: int| r.holds(b, a) == #[trigger] self.holds(a, b),
            r == self.flipped(),
    {
        match self {
            CmpOp::Eq => CmpOp::Eq,
            CmpOp::Ne => CmpOp::Ne,
            CmpOp::Lt => CmpOp::Gt,
            CmpOp::Gt => CmpOp::Lt,
            CmpOp::LtEq => CmpOp::GtEq,
            CmpOp::GtEq => CmpOp::LtEq,
        }
    }

    /// The negation: `a negate(OP) b` holds exactly when `a OP b` does not.
    pub fn negate(self) -> (r: CmpOp)
        ensures
            forall|a: int, b: int| r.holds(a, b) == !#[trigger] self.holds(a, b),
            r == self.negated(),
    {
        match self {
            CmpOp::Eq => CmpOp::Ne,
            CmpOp::Ne => CmpOp::Eq,
            CmpOp::Lt => CmpOp::GtEq,
            CmpOp::GtEq => CmpOp::Lt,
            CmpOp::Gt => CmpOp::LtEq,
            CmpOp::LtEq => CmpOp::Gt,
        }
    }

    /// The operator for swapped operands.
    pub open spec fn flipped(self) -> CmpOp {
        match self {
            CmpOp::Eq => CmpOp::Eq,
            CmpOp::Ne => CmpOp::Ne,
            CmpOp::Lt => CmpOp::Gt,
            CmpOp::Gt => CmpOp::Lt,
            CmpOp::LtEq => CmpOp::GtEq,
            CmpOp::GtEq => CmpOp::LtEq,
        }
    }

    /// The opposite test.
    pub open spec fn negated(self) -> CmpOp {
        match self {
            CmpOp::Eq => CmpOp::Ne,
            CmpOp::Ne => CmpOp::Eq,
            CmpOp::Lt => CmpOp::GtEq,
            CmpOp::GtEq => CmpOp::Lt,
            CmpOp::Gt => CmpOp::LtEq,
            CmpOp::LtEq => CmpOp::Gt,
        }
    }
}

} // verus!
