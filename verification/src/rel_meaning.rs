//! The meaning of relational expressions as sets of rows, and what the
//! analyses promise about it.

use crate::rel_analysis::{
    all_in, components_of, consumed, extension_attrs, gathered_attrs, lifted_attrs, none_in,
    renamed,
};
use crate::rel_expr::{PredicateView, RelView, RestrictValueView, ScalarView};
use crate::text::Name;
use crate::types::{attr_names, attrs_without, lookup_attr, shared_of, HeadingView, TypeView};
use vstd::prelude::*;

verus! {

/// A row: a value for each attribute. Values are told apart and ordered by
/// integers that stand for them.
pub type Row = Map<Name, int>;

/// What the leaves and the scalar parts of an expression mean.
pub struct World {
    /// Whether a row is in a public relvar's table (database, table).
    pub relvar: spec_fn(Name, Name, Row) -> bool,
    /// Whether a row is in a private relvar.
    pub private: spec_fn(Name, Row) -> bool,
    /// Whether a row is in the relation shipped in a slot.
    pub slot: spec_fn(int, Row) -> bool,
    /// The value that a restriction compares with.
    pub value: spec_fn(RestrictValueView) -> int,
    /// The value of a scalar expression for a row.
    pub scalar: spec_fn(ScalarView, Row) -> int,
    /// The tuple value that holds a row.
    pub pack: spec_fn(Row) -> int,
    /// A component of a tuple value.
    pub unpack: spec_fn(int, Name) -> int,
    /// The relation value that holds the rows of a set.
    pub nest: spec_fn(spec_fn(Row) -> bool) -> int,
    /// Whether a row is in a relation value.
    pub member: spec_fn(int, Row) -> bool,
}

/// The part of a row under the given names.
pub open spec fn narrow(r: Row, names: Seq<Name>) -> Row {
    Map::new(|n: Name| r.dom().contains(n) && names.contains(n), |n: Name| r[n])
}

/// The part of a row outside the given names.
pub open spec fn strip(r: Row, names: Seq<Name>) -> Row {
    Map::new(|n: Name| r.dom().contains(n) && !names.contains(n), |n: Name| r[n])
}

/// Whether the row has exactly the given attributes.
pub open spec fn over(r: Row, names: Seq<Name>) -> bool {
    forall|n: Name| #[trigger] r.dom().contains(n) <==> names.contains(n)
}

/// Whether two rows have the same values under the given names.
pub open spec fn agree_on(a: Row, b: Row, names: Seq<Name>) -> bool {
    forall|n: Name| names.contains(n) ==> #[trigger] a[n] == #[trigger] b[n]
}

/// Whether `r` is `s` under new names.
pub open spec fn is_renamed(s: Row, r: Row, renames: Seq<(Name, Name)>) -> bool {
    &&& forall|n: Name| #[trigger]
        s.dom().contains(n) ==> r.dom().contains(renamed(renames, n)) && r[renamed(renames, n)]
            == s[n]
    &&& forall|m: Name| #[trigger]
        r.dom().contains(m) ==> exists|n: Name|
            s.dom().contains(n) && #[trigger] renamed(renames, n) == m
}

/// The row with the computed attributes added, each computed of the row itself.
pub open spec fn extended(w: World, s: Row, extends: Seq<(Name, TypeView, ScalarView)>) -> Row
    decreases extends.len(),
{
    if extends.len() == 0 {
        s
    } else {
        extended(w, s, extends.drop_last()).insert(
            extends.last().0,
            (w.scalar)(extends.last().2, s),
        )
    }
}

/// The row with components gathered into tuple values.
pub open spec fn wrapped(w: World, s: Row, base: Row, wraps: Seq<(Name, HeadingView)>) -> Row
    decreases wraps.len(),
{
    if wraps.len() == 0 {
        base
    } else {
        wrapped(w, s, base, wraps.drop_last()).insert(
            wraps.last().0,
            (w.pack)(narrow(s, attr_names(wraps.last().1))),
        )
    }
}

/// The components of a tuple value, as a row.
pub open spec fn components_row(w: World, cell: int, names: Seq<Name>) -> Row {
    Map::new(|n: Name| names.contains(n), |n: Name| (w.unpack)(cell, n))
}

/// The row with the named tuple values expanded.
pub open spec fn unwrapped(
    w: World,
    s: Row,
    base: Row,
    names: Seq<Name>,
    h: HeadingView,
) -> Row
    decreases names.len(),
{
    if names.len() == 0 {
        base
    } else {
        unwrapped(w, s, base, names.drop_last(), h).union_prefer_right(
            components_row(
                w,
                s[names.last()],
                attr_names(components_of(lookup_attr(h, names.last()), false)),
            ),
        )
    }
}

/// The row of survivors with, for each group, the relation value of the
/// component rows that go with these survivors.
pub open spec fn grouped(
    w: World,
    input: RelView,
    survivors: Row,
    gone: Seq<Name>,
    groups: Seq<(Name, HeadingView)>,
) -> Row
    decreases input, groups.len(),
{
    if groups.len() == 0 {
        survivors
    } else {
        grouped(w, input, survivors, gone, groups.drop_last()).insert(
            groups.last().0,
            (w.nest)(
                |t: Row|
                    exists|u: Row|
                        input.yields(w, u) && #[trigger] strip(u, gone) == survivors && t == narrow(
                            u,
                            attr_names(groups.last().1),
                        ),
            ),
        )
    }
}

/// The row with picked rows put beside it.
pub open spec fn beside(base: Row, picks: Seq<Row>) -> Row
    decreases picks.len(),
{
    if picks.len() == 0 {
        base
    } else {
        beside(base, picks.drop_last()).union_prefer_right(picks.last())
    }
}

/// Whether the rows are one out of each named relation value.
pub open spec fn picked(
    w: World,
    s: Row,
    names: Seq<Name>,
    h: HeadingView,
    picks: Seq<Row>,
) -> bool {
    &&& picks.len() == names.len()
    &&& forall|i: int|
        0 <= i < names.len() ==> (w.member)(s[names[i]], #[trigger] picks[i]) && over(
            picks[i],
            attr_names(components_of(lookup_attr(h, names[i]), true)),
        )
}

/// A row of the two attributes of a binary heading.
pub open spec fn edge(h: HeadingView, from: int, to: int) -> Row {
    Map::empty().insert(h[0].0, from).insert(h[1].0, to)
}

impl PredicateView {
    /// Whether the predicate holds for the row.
    pub open spec fn holds(self, w: World, r: Row) -> bool {
        match self {
            PredicateView::AttrCmp { attr, op, value } => op.holds(r[attr], (w.value)(value)),
            PredicateView::Gate(value) => (w.value)(value) != 0,
        }
    }
}

impl RelView {
    /// Whether the row is in the relation that the expression denotes.
    pub open spec fn yields(self, w: World, r: Row) -> bool
        decreases self, 0nat,
    {
        match self {
            RelView::RelvarRef { database, table_name, .. } => (w.relvar)(database, table_name, r),
            RelView::Restrict { input, pred } => input.yields(w, r) && pred.holds(w, r),
            RelView::Project { input, keep } => exists|s: Row| input.yields(w, s) && r == #[trigger] narrow(s, keep),
            RelView::Rename { input, renames } => exists|s: Row| input.yields(w, s) && #[trigger] is_renamed(s, r, renames),
            RelView::Extend { input, extends } => exists|s: Row| input.yields(w, s) && r == #[trigger] extended(w, s, extends),
            RelView::And { lhs, rhs } => {
                &&& lhs.yields(w, narrow(r, attr_names(lhs.heading())))
                &&& rhs.yields(w, narrow(r, attr_names(rhs.heading())))
                &&& forall|n: Name| #[trigger]
                    r.dom().contains(n) ==> attr_names(lhs.heading()).contains(n) || attr_names(
                        rhs.heading(),
                    ).contains(n)
            },
            RelView::Or { lhs, rhs } => lhs.yields(w, r) || rhs.yields(w, r),
            RelView::Minus { lhs, rhs } => lhs.yields(w, r) && !rhs.yields(w, r),
            RelView::Otherwise { primary, fallback } => {
                ||| primary.yields(w, r)
                ||| fallback.yields(w, r) && forall|s: Row| !#[trigger] primary.yields(w, s)
            },
            RelView::Semijoin { lhs, rhs, negated } => lhs.yields(w, r) && negated != (exists|
                s: Row,
            | rhs.yields(w, s) && #[trigger] agree_on(r, s, shared_of(lhs.heading(), rhs.heading()))),
            RelView::TClose { input } => exists|path: Seq<int>|
                {
                    &&& path.len() >= 2
                    &&& r == edge(input.heading(), path[0], path.last())
                    &&& forall|i: int|
                        0 <= i < path.len() - 1 ==> input.yields(
                            w,
                            edge(input.heading(), #[trigger] path[i], path[i + 1]),
                        )
                },
            RelView::Wrap { input, wraps } => exists|s: Row| input.yields(w, s) && r == #[trigger] wrapped(w, s, strip(s, consumed(wraps)), wraps),
            RelView::Unwrap { input, names } => exists|s: Row| input.yields(w, s) && r == #[trigger] unwrapped(
                    w,
                    s,
                    strip(s, names),
                    names,
                    input.heading(),
                ),
            RelView::Group { input, groups } => exists|s: Row| input.yields(w, s) && r == grouped(
                    w,
                    *input,
                    #[trigger] strip(s, consumed(groups)),
                    consumed(groups),
                    groups,
                ),
            RelView::Ungroup { input, names } => exists|s: Row, picks: Seq<Row>| input.yields(w, s) && #[trigger] picked(w, s, names, input.heading(), picks) && r
                    == beside(strip(s, names), picks),
            RelView::MaterializedRelvar { name, .. } => (w.private)(name, r),
            RelView::RelParam { slot, .. } => (w.slot)(slot, r),
        }
    }

    /// The attribute names of the result.
    pub open spec fn attributes(self) -> Seq<Name> {
        attr_names(self.heading())
    }

    /// Whether no two rows of the result agree on all of these attributes.
    pub open spec fn unique_on(self, w: World, key: Seq<Name>) -> bool {
        forall|a: Row, b: Row| #[trigger]
            self.yields(w, a) && #[trigger] self.yields(w, b) && agree_on(a, b, key) ==> a == b
    }

    /// Whether the result has at most one row.
    pub open spec fn at_most_one(self, w: World) -> bool {
        forall|a: Row, b: Row| #[trigger]
            self.yields(w, a) && #[trigger] self.yields(w, b) ==> a == b
    }

    /// What the type checker grants: keys made of attributes, renamings that
    /// keep names apart, new attributes that meet no old one, and one heading
    /// for both operands of a union, a difference or an `otherwise`.
    pub open spec fn well_typed(self) -> bool
        decreases self,
    {
        match self {
            RelView::RelvarRef { heading, keys, .. } => forall|i: int|
                0 <= i < keys.len() ==> all_in(#[trigger] keys[i], attr_names(heading)),
            RelView::Restrict { input, .. } => input.well_typed(),
            RelView::Project { input, .. } => input.well_typed(),
            RelView::Rename { input, renames } => {
                &&& input.well_typed()
                &&& forall|m: Name, n: Name|
                    input.attributes().contains(m) && input.attributes().contains(n)
                        && #[trigger] renamed(renames, m) == #[trigger] renamed(renames, n) ==> m
                        == n
            },
            RelView::Extend { input, extends } => {
                &&& input.well_typed()
                &&& none_in(attr_names(extension_attrs(extends)), input.attributes())
            },
            RelView::And { lhs, rhs } => lhs.well_typed() && rhs.well_typed(),
            RelView::Or { lhs, rhs } => {
                &&& lhs.well_typed()
                &&& rhs.well_typed()
                &&& lhs.heading() == rhs.heading()
            },
            RelView::Minus { lhs, rhs } => {
                &&& lhs.well_typed()
                &&& rhs.well_typed()
                &&& lhs.heading() == rhs.heading()
            },
            RelView::Otherwise { primary, fallback } => {
                &&& primary.well_typed()
                &&& fallback.well_typed()
                &&& primary.heading() == fallback.heading()
            },
            RelView::Semijoin { lhs, rhs, .. } => lhs.well_typed() && rhs.well_typed(),
            RelView::TClose { input } => {
                &&& input.well_typed()
                &&& input.heading().len() == 2
            },
            RelView::Wrap { input, .. } => input.well_typed(),
            RelView::Unwrap { input, .. } => input.well_typed(),
            RelView::Group { input, groups } => {
                &&& input.well_typed()
                &&& none_in(
                    attr_names(gathered_attrs(groups, true)),
                    attr_names(attrs_without(input.heading(), consumed(groups))),
                )
            },
            RelView::Ungroup { input, names } => {
                &&& input.well_typed()
                &&& none_in(
                    attr_names(lifted_attrs(input.heading(), names, true)),
                    attr_names(attrs_without(input.heading(), names)),
                )
            },
            RelView::MaterializedRelvar { .. } => true,
            RelView::RelParam { .. } => true,
        }
    }

    /// Whether the leaves hold what they declare: rows over their heading, and
    /// for a public relvar no two rows that agree on a declared key.
    pub open spec fn legal_in(self, w: World) -> bool
        decreases self,
    {
        match self {
            RelView::RelvarRef { heading, database, table_name, keys, .. } => {
                &&& forall|r: Row| #[trigger]
                    (w.relvar)(database, table_name, r) ==> over(r, attr_names(heading))
                &&& forall|i: int, a: Row, b: Row|
                    0 <= i < keys.len() && #[trigger] (w.relvar)(database, table_name, a)
                        && #[trigger] (w.relvar)(database, table_name, b) && agree_on(
                        a,
                        b,
                        #[trigger] keys[i],
                    ) ==> a == b
            },
            RelView::Restrict { input, .. } => input.legal_in(w),
            RelView::Project { input, .. } => input.legal_in(w),
            RelView::Rename { input, .. } => input.legal_in(w),
            RelView::Extend { input, .. } => input.legal_in(w),
            RelView::And { lhs, rhs } => lhs.legal_in(w) && rhs.legal_in(w),
            RelView::Or { lhs, rhs } => lhs.legal_in(w) && rhs.legal_in(w),
            RelView::Minus { lhs, rhs } => lhs.legal_in(w) && rhs.legal_in(w),
            RelView::Otherwise { primary, fallback } => primary.legal_in(w) && fallback.legal_in(w),
            RelView::Semijoin { lhs, rhs, .. } => lhs.legal_in(w) && rhs.legal_in(w),
            RelView::TClose { input } => input.legal_in(w),
            RelView::Wrap { input, .. } => input.legal_in(w),
            RelView::Unwrap { input, .. } => input.legal_in(w),
            RelView::Group { input, .. } => input.legal_in(w),
            RelView::Ungroup { input, .. } => input.legal_in(w),
            RelView::MaterializedRelvar { name, heading } => forall|r: Row| #[trigger]
                (w.private)(name, r) ==> over(r, attr_names(heading)),
            RelView::RelParam { slot, heading } => forall|r: Row| #[trigger]
                (w.slot)(slot, r) ==> over(r, attr_names(heading)),
        }
    }
}

} // verus!
