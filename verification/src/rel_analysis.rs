//! What follows from a relational expression alone: its heading, where its
//! data is rooted, which attribute sets identify a tuple, whether it has at
//! most one tuple, and the rewriting of a semijoin against a one-row parameter.

use crate::rel_expr::{
    copy_name_lists, CmpOp, Predicate, PredicateView, RelExpr, RelView, RestrictValue,
    RestrictValueView, ScalarView, StorageOrigin,
};
use crate::rel_expr::{extends_view, named_headings};
use crate::text::{copy_names, has_name, name_lists_of, name_pairs_of, names_of, same_text, Name};
use crate::types::{
    attr_names, attrs_view, attrs_within, attrs_without, canonical, copy_attrs, heading_union,
    headings_agree, lookup_attr, names_of_attrs, shared_of, Heading, HeadingView, Type, TypeView,
};
use vstd::prelude::*;

verus! {

/// `s`, with `x` added unless it is there already.
pub open spec fn add_new<A>(s: Seq<A>, x: A) -> Seq<A> {
    if s.contains(x) {
        s
    } else {
        s.push(x)
    }
}

/// `s`, with each of `xs` added in turn unless it is there already.
pub open spec fn add_each<A>(s: Seq<A>, xs: Seq<A>) -> Seq<A>
    decreases xs.len(),
{
    if xs.len() == 0 {
        s
    } else {
        add_new(add_each(s, xs.drop_last()), xs.last())
    }
}

/// Whether every name of `k` stands in `names`.
pub open spec fn all_in(k: Seq<Name>, names: Seq<Name>) -> bool {
    forall|i: int| 0 <= i < k.len() ==> names.contains(#[trigger] k[i])
}

/// Whether no name of `k` stands in `names`.
pub open spec fn none_in(k: Seq<Name>, names: Seq<Name>) -> bool {
    forall|i: int| 0 <= i < k.len() ==> !names.contains(#[trigger] k[i])
}

/// What the renaming makes of one name: the first pair for it decides.
pub open spec fn renamed(renames: Seq<(Name, Name)>, name: Name) -> Name
    decreases renames.len(),
{
    if renames.len() == 0 {
        name
    } else if renames[0].0 == name {
        renames[0].1
    } else {
        renamed(renames.drop_first(), name)
    }
}

/// What the renaming makes of each name.
pub open spec fn renamed_all(renames: Seq<(Name, Name)>, names: Seq<Name>) -> Seq<Name> {
    Seq::new(names.len(), |i: int| renamed(renames, names[i]))
}

/// The attributes under their new names.
pub open spec fn renamed_attrs(renames: Seq<(Name, Name)>, h: HeadingView) -> HeadingView {
    Seq::new(h.len(), |i: int| (renamed(renames, h[i].0), h[i].1))
}

/// The component names of all pairs.
pub open spec fn consumed(pairs: Seq<(Name, HeadingView)>) -> Seq<Name>
    decreases pairs.len(),
{
    if pairs.len() == 0 {
        Seq::empty()
    } else {
        consumed(pairs.drop_last()) + attr_names(pairs.last().1)
    }
}

/// The type that gathers components: a relation or a tuple of them.
pub open spec fn gathered(components: HeadingView, relation: bool) -> TypeView {
    if relation {
        TypeView::Relation(components)
    } else {
        TypeView::Tuple(components)
    }
}

/// The attributes that gathering adds, one for each pair.
pub open spec fn gathered_attrs(
    pairs: Seq<(Name, HeadingView)>,
    relation: bool,
) -> HeadingView {
    Seq::new(pairs.len(), |i: int| (pairs[i].0, gathered(pairs[i].1, relation)))
}

/// The components of an attribute, when it is relation-valued (`relation`) or
/// tuple-valued.
pub open spec fn components_of(t: Option<TypeView>, relation: bool) -> HeadingView {
    match t {
        Some(TypeView::Tuple(sub)) => if relation {
            Seq::empty()
        } else {
            sub
        },
        Some(TypeView::Relation(sub)) => if relation {
            sub
        } else {
            Seq::empty()
        },
        _ => Seq::empty(),
    }
}

/// The attributes that expanding the named ones brings to the top.
pub open spec fn lifted_attrs(h: HeadingView, names: Seq<Name>, relation: bool) -> HeadingView
    decreases names.len(),
{
    if names.len() == 0 {
        Seq::empty()
    } else {
        lifted_attrs(h, names.drop_last(), relation) + components_of(
            lookup_attr(h, names.last()),
            relation,
        )
    }
}

/// The attributes an extension adds.
pub open spec fn extension_attrs(extends: Seq<(Name, TypeView, ScalarView)>) -> HeadingView {
    Seq::new(extends.len(), |i: int| (extends[i].0, extends[i].1))
}

/// `lk ∪ rk` for each key of one side and each key of the other.
pub open spec fn composites(lks: Seq<Seq<Name>>, rks: Seq<Seq<Name>>) -> Seq<Seq<Name>>
    decreases lks.len(),
{
    if lks.len() == 0 {
        Seq::empty()
    } else {
        composites(lks.drop_last(), rks) + composites_with(lks.last(), rks)
    }
}

/// `lk ∪ rk` for each `rk`.
pub open spec fn composites_with(lk: Seq<Name>, rks: Seq<Seq<Name>>) -> Seq<Seq<Name>> {
    Seq::new(rks.len(), |j: int| add_each(lk, rks[j]))
}

/// Whether some key lies within the join attributes.
pub open spec fn covered(keys: Seq<Seq<Name>>, shared: Seq<Name>) -> bool {
    exists|i: int| 0 <= i < keys.len() && all_in(#[trigger] keys[i], shared)
}

/// The keys of a join: a side's keys when the join attributes cover a key of
/// the other side, and the union of any key of each.
pub open spec fn join_keys(
    lks: Seq<Seq<Name>>,
    rks: Seq<Seq<Name>>,
    shared: Seq<Name>,
) -> Seq<Seq<Name>> {
    let from_left = if covered(rks, shared) {
        add_each(Seq::empty(), lks)
    } else {
        Seq::empty()
    };
    let from_both = if covered(lks, shared) {
        add_each(from_left, rks)
    } else {
        from_left
    };
    add_each(from_both, composites(lks, rks))
}

/// The origin of an operator over two operands.
pub open spec fn combined(lhs: StorageOrigin, rhs: StorageOrigin) -> StorageOrigin {
    if lhs == rhs && lhs != StorageOrigin::Mixed {
        lhs
    } else {
        StorageOrigin::Mixed
    }
}

/// The rows of `e` restricted by one equality for each attribute of `h` from
/// the first up to the `n`-th, with the cells of the slot's row.
pub open spec fn pinned(e: RelView, slot: int, h: HeadingView, n: int) -> RelView
    decreases n,
{
    if n <= 0 {
        e
    } else {
        RelView::Restrict {
            input: Box::new(pinned(e, slot, h, n - 1)),
            pred: PredicateView::AttrCmp {
                attr: h[n - 1].0,
                op: CmpOp::Eq,
                value: RestrictValueView::SlotCell { slot, cell: n - 1 },
            },
        }
    }
}

impl RelView {
    /// The attributes of the relation that the expression yields.
    pub open spec fn heading(self) -> HeadingView
        decreases self,
    {
        match self {
            RelView::RelvarRef { heading, .. } => heading,
            RelView::Restrict { input, .. } => input.heading(),
            RelView::Project { input, keep } => canonical(attrs_within(input.heading(), keep)),
            RelView::Rename { input, renames } => canonical(
                renamed_attrs(renames, input.heading()),
            ),
            RelView::Extend { input, extends } => canonical(
                input.heading() + extension_attrs(extends),
            ),
            RelView::And { lhs, rhs } => heading_union(lhs.heading(), rhs.heading()),
            RelView::Or { lhs, .. } => lhs.heading(),
            RelView::Minus { lhs, .. } => lhs.heading(),
            RelView::Otherwise { primary, .. } => primary.heading(),
            RelView::Semijoin { lhs, .. } => lhs.heading(),
            RelView::TClose { input } => input.heading(),
            RelView::Wrap { input, wraps } => canonical(
                attrs_without(input.heading(), consumed(wraps)) + gathered_attrs(wraps, false),
            ),
            RelView::Unwrap { input, names } => canonical(
                attrs_without(input.heading(), names) + lifted_attrs(input.heading(), names, false),
            ),
            RelView::Group { input, groups } => canonical(
                attrs_without(input.heading(), consumed(groups)) + gathered_attrs(groups, true),
            ),
            RelView::Ungroup { input, names } => canonical(
                attrs_without(input.heading(), names) + lifted_attrs(input.heading(), names, true),
            ),
            RelView::MaterializedRelvar { heading, .. } => heading,
            RelView::RelParam { heading, .. } => heading,
        }
    }

    /// Whether the joins that decide the heading give each shared attribute
    /// one type.
    pub open spec fn has_heading(self) -> bool
        decreases self,
    {
        match self {
            RelView::RelvarRef { .. } => true,
            RelView::Restrict { input, .. } => input.has_heading(),
            RelView::Project { input, .. } => input.has_heading(),
            RelView::Rename { input, .. } => input.has_heading(),
            RelView::Extend { input, .. } => input.has_heading(),
            RelView::And { lhs, rhs } => {
                &&& lhs.has_heading()
                &&& rhs.has_heading()
                &&& headings_agree(lhs.heading(), rhs.heading())
            },
            RelView::Or { lhs, .. } => lhs.has_heading(),
            RelView::Minus { lhs, .. } => lhs.has_heading(),
            RelView::Otherwise { primary, .. } => primary.has_heading(),
            RelView::Semijoin { lhs, .. } => lhs.has_heading(),
            RelView::TClose { input } => input.has_heading(),
            RelView::Wrap { input, .. } => input.has_heading(),
            RelView::Unwrap { input, .. } => input.has_heading(),
            RelView::Group { input, .. } => input.has_heading(),
            RelView::Ungroup { input, .. } => input.has_heading(),
            RelView::MaterializedRelvar { .. } => true,
            RelView::RelParam { .. } => true,
        }
    }

    /// Where the data is rooted.
    pub open spec fn origin(self) -> StorageOrigin
        decreases self,
    {
        match self {
            RelView::RelvarRef { .. } => StorageOrigin::RelvarRooted,
            RelView::Restrict { input, .. } => input.origin(),
            RelView::Project { input, .. } => input.origin(),
            RelView::Rename { input, .. } => input.origin(),
            RelView::Extend { input, .. } => input.origin(),
            RelView::And { lhs, rhs } => combined(lhs.origin(), rhs.origin()),
            RelView::Or { lhs, rhs } => combined(lhs.origin(), rhs.origin()),
            RelView::Minus { lhs, rhs } => combined(lhs.origin(), rhs.origin()),
            RelView::Otherwise { primary, fallback } => combined(
                primary.origin(),
                fallback.origin(),
            ),
            RelView::Semijoin { lhs, rhs, .. } => combined(lhs.origin(), rhs.origin()),
            RelView::TClose { input } => input.origin(),
            RelView::Wrap { input, .. } => input.origin(),
            RelView::Unwrap { input, .. } => input.origin(),
            RelView::Group { input, .. } => input.origin(),
            RelView::Ungroup { input, .. } => input.origin(),
            RelView::MaterializedRelvar { .. } => StorageOrigin::Materialized,
            RelView::RelParam { .. } => StorageOrigin::Materialized,
        }
    }

    /// Attribute sets that identify a tuple of the result.
    pub open spec fn surviving_keys(self) -> Seq<Seq<Name>>
        decreases self,
    {
        match self {
            RelView::RelvarRef { keys, .. } => keys,
            RelView::Restrict { input, .. } => input.surviving_keys(),
            RelView::Project { input, keep } => input.surviving_keys().filter(
                |k: Seq<Name>| all_in(k, keep),
            ),
            RelView::Rename { input, renames } => input.surviving_keys().map_values(
                |k: Seq<Name>| renamed_all(renames, k),
            ),
            RelView::Extend { input, .. } => input.surviving_keys(),
            RelView::And { lhs, rhs } => join_keys(
                lhs.surviving_keys(),
                rhs.surviving_keys(),
                shared_of(lhs.heading(), rhs.heading()),
            ),
            RelView::Or { .. } => Seq::empty(),
            RelView::Minus { lhs, .. } => lhs.surviving_keys(),
            RelView::Otherwise { .. } => Seq::empty(),
            RelView::Semijoin { lhs, .. } => lhs.surviving_keys(),
            RelView::TClose { .. } => Seq::empty(),
            RelView::Wrap { .. } => Seq::empty(),
            RelView::Unwrap { .. } => Seq::empty(),
            RelView::Group { input, groups } => {
                let survivors = attr_names(attrs_without(input.heading(), consumed(groups)));
                add_each(
                    seq![survivors],
                    input.surviving_keys().filter(|k: Seq<Name>| all_in(k, survivors)),
                )
            },
            RelView::Ungroup { input, names } => {
                let lifted = attr_names(lifted_attrs(input.heading(), names, true));
                input.surviving_keys().filter(|k: Seq<Name>| none_in(k, names)).map_values(
                    |k: Seq<Name>| add_each(k, lifted),
                )
            },
            RelView::MaterializedRelvar { .. } => Seq::empty(),
            RelView::RelParam { heading, .. } => seq![attr_names(heading)],
        }
    }

    /// Whether the headings that decide the surviving keys are defined.
    pub open spec fn has_keys(self) -> bool
        decreases self,
    {
        match self {
            RelView::RelvarRef { .. } => true,
            RelView::Restrict { input, .. } => input.has_keys(),
            RelView::Project { input, .. } => input.has_keys(),
            RelView::Rename { input, .. } => input.has_keys(),
            RelView::Extend { input, .. } => input.has_keys(),
            RelView::And { lhs, rhs } => {
                &&& lhs.has_keys()
                &&& rhs.has_keys()
                &&& lhs.has_heading()
                &&& rhs.has_heading()
            },
            RelView::Or { .. } => true,
            RelView::Minus { lhs, .. } => lhs.has_keys(),
            RelView::Otherwise { .. } => true,
            RelView::Semijoin { lhs, .. } => lhs.has_keys(),
            RelView::TClose { .. } => true,
            RelView::Wrap { .. } => true,
            RelView::Unwrap { .. } => true,
            RelView::Group { input, .. } => input.has_keys() && input.has_heading(),
            RelView::Ungroup { input, .. } => input.has_keys() && input.has_heading(),
            RelView::MaterializedRelvar { .. } => true,
            RelView::RelParam { .. } => true,
        }
    }

    /// Whether an equality pins one of the keys, a single attribute.
    pub open spec fn pins_key(pred: PredicateView, keys: Seq<Seq<Name>>) -> bool {
        match pred {
            PredicateView::AttrCmp { attr, op, .. } => op == CmpOp::Eq && keys.contains(
                seq![attr],
            ),
            PredicateView::Gate(_) => false,
        }
    }

    /// Whether the expression provably has at most one tuple.
    pub open spec fn card_le_one(self) -> bool
        decreases self,
    {
        match self {
            RelView::RelvarRef { .. } => false,
            RelView::Restrict { input, pred } => input.card_le_one() || RelView::pins_key(
                pred,
                input.surviving_keys(),
            ),
            RelView::Project { input, .. } => input.card_le_one(),
            RelView::Rename { input, .. } => input.card_le_one(),
            RelView::Extend { input, .. } => input.card_le_one(),
            RelView::And { lhs, rhs } => lhs.card_le_one() && rhs.card_le_one(),
            RelView::Or { .. } => false,
            RelView::Minus { .. } => false,
            RelView::Otherwise { .. } => false,
            RelView::Semijoin { lhs, .. } => lhs.card_le_one(),
            RelView::TClose { .. } => false,
            RelView::Wrap { input, .. } => input.card_le_one(),
            RelView::Unwrap { input, .. } => input.card_le_one(),
            RelView::Group { input, groups } => input.card_le_one() || all_in(
                attr_names(input.heading()),
                consumed(groups),
            ),
            RelView::Ungroup { .. } => false,
            RelView::MaterializedRelvar { .. } => false,
            RelView::RelParam { .. } => false,
        }
    }

    /// Whether the keys and headings that the cardinality bound looks at are
    /// defined.
    pub open spec fn has_card(self) -> bool
        decreases self,
    {
        match self {
            RelView::RelvarRef { .. } => true,
            RelView::Restrict { input, pred } => {
                &&& input.has_card()
                &&& input.card_le_one() || pred is Gate || pred->op != CmpOp::Eq
                    || input.has_keys()
            },
            RelView::Project { input, .. } => input.has_card(),
            RelView::Rename { input, .. } => input.has_card(),
            RelView::Extend { input, .. } => input.has_card(),
            RelView::And { lhs, rhs } => lhs.has_card() && (lhs.card_le_one() ==> rhs.has_card()),
            RelView::Or { .. } => true,
            RelView::Minus { .. } => true,
            RelView::Otherwise { .. } => true,
            RelView::Semijoin { lhs, .. } => lhs.has_card(),
            RelView::TClose { .. } => true,
            RelView::Wrap { input, .. } => input.has_card(),
            RelView::Unwrap { input, .. } => input.has_card(),
            RelView::Group { input, .. } => {
                &&& input.has_card()
                &&& input.card_le_one() || input.has_heading()
            },
            RelView::Ungroup { .. } => true,
            RelView::MaterializedRelvar { .. } => true,
            RelView::RelParam { .. } => true,
        }
    }

    /// Whether a duplicate-free result needs `DISTINCT`.
    pub open spec fn needs_distinct(self) -> bool {
        !self.card_le_one() && self.surviving_keys().len() == 0
    }

    /// Whether a relvar leaf reads the table.
    pub open spec fn references_table(self, table: Name) -> bool
        decreases self,
    {
        match self {
            RelView::RelvarRef { table_name, .. } => table_name == table,
            RelView::Restrict { input, .. } => input.references_table(table),
            RelView::Project { input, .. } => input.references_table(table),
            RelView::Rename { input, .. } => input.references_table(table),
            RelView::Extend { input, .. } => input.references_table(table),
            RelView::And { lhs, rhs } => lhs.references_table(table) || rhs.references_table(table),
            RelView::Or { lhs, rhs } => lhs.references_table(table) || rhs.references_table(table),
            RelView::Minus { lhs, rhs } => lhs.references_table(table) || rhs.references_table(
                table,
            ),
            RelView::Otherwise { primary, fallback } => primary.references_table(table)
                || fallback.references_table(table),
            RelView::Semijoin { lhs, rhs, .. } => lhs.references_table(table)
                || rhs.references_table(table),
            RelView::TClose { input } => input.references_table(table),
            RelView::Wrap { input, .. } => input.references_table(table),
            RelView::Unwrap { input, .. } => input.references_table(table),
            RelView::Group { input, .. } => input.references_table(table),
            RelView::Ungroup { input, .. } => input.references_table(table),
            RelView::MaterializedRelvar { .. } => false,
            RelView::RelParam { .. } => false,
        }
    }

    /// How many relation parameters the expression holds.
    pub open spec fn rel_param_count(self) -> nat
        decreases self,
    {
        match self {
            RelView::RelvarRef { .. } => 0,
            RelView::Restrict { input, .. } => input.rel_param_count(),
            RelView::Project { input, .. } => input.rel_param_count(),
            RelView::Rename { input, .. } => input.rel_param_count(),
            RelView::Extend { input, .. } => input.rel_param_count(),
            RelView::And { lhs, rhs } => lhs.rel_param_count() + rhs.rel_param_count(),
            RelView::Or { lhs, rhs } => lhs.rel_param_count() + rhs.rel_param_count(),
            RelView::Minus { lhs, rhs } => lhs.rel_param_count() + rhs.rel_param_count(),
            RelView::Otherwise { primary, fallback } => primary.rel_param_count()
                + fallback.rel_param_count(),
            RelView::Semijoin { lhs, rhs, .. } => lhs.rel_param_count() + rhs.rel_param_count(),
            RelView::TClose { input } => input.rel_param_count(),
            RelView::Wrap { input, .. } => input.rel_param_count(),
            RelView::Unwrap { input, .. } => input.rel_param_count(),
            RelView::Group { input, .. } => input.rel_param_count(),
            RelView::Ungroup { input, .. } => input.rel_param_count(),
            RelView::MaterializedRelvar { .. } => 0,
            RelView::RelParam { .. } => 1,
        }
    }

    /// The expression below a root projection, or the expression itself.
    pub open spec fn below_projection(self) -> RelView {
        match self {
            RelView::Project { input, .. } => *input,
            _ => self,
        }
    }

    /// Whether the root is a semijoin (under at most one projection) whose
    /// right side is the expression's only relation parameter, all of whose
    /// attributes the left side shares.
    pub open spec fn card1_applies(self) -> bool {
        match self.below_projection() {
            RelView::Semijoin { lhs, rhs, negated: false } => match *rhs {
                RelView::RelParam { heading, .. } => {
                    &&& self.rel_param_count() == 1
                    &&& shared_of(lhs.heading(), heading).len() == heading.len()
                },
                _ => false,
            },
            _ => false,
        }
    }

    /// Whether the left heading that the rewriting looks at is defined, when
    /// it gets so far.
    pub open spec fn has_card1(self) -> bool {
        match self.below_projection() {
            RelView::Semijoin { lhs, rhs, negated: false } => {
                *rhs is RelParam && self.rel_param_count() == 1 ==> lhs.has_heading()
            },
            _ => true,
        }
    }

    /// The semijoin as equalities with the cells of the parameter's only row,
    /// under the same projection.
    pub open spec fn card1_rewritten(self) -> RelView {
        let core = self.below_projection();
        let body = pinned(
            *core->Semijoin_lhs,
            core->Semijoin_rhs->RelParam_slot,
            core->Semijoin_rhs->RelParam_heading,
            core->Semijoin_rhs->RelParam_heading.len() as int,
        );
        match self {
            RelView::Project { keep, .. } => RelView::Project { input: Box::new(body), keep },
            _ => body,
        }
    }

    /// The slot whose run-time row count selects the rewriting.
    pub open spec fn card1_slot(self) -> int {
        self.below_projection()->Semijoin_rhs->RelParam_slot
    }
}

/// What the renaming makes of one name.
pub fn apply_rename(renames: &Vec<(String, String)>, name: &str) -> (r: String)
    ensures
        r@ == renamed(name_pairs_of(renames@), name@),
{
    let mut i: usize = 0;
    let ghost pairs = name_pairs_of(renames@);
    assert(pairs.skip(0) =~= pairs);
    while i < renames.len()
        invariant
            i <= renames.len(),
            pairs == name_pairs_of(renames@),
            renamed(pairs, name@) == renamed(pairs.skip(i as int), name@),
        decreases renames.len() - i,
    {
        assert(pairs.skip(i as int)[0] == pairs[i as int]);
        if same_text(renames[i].0.as_str(), name) {
            return renames[i].1.clone();
        }
        assert(pairs.skip(i as int).drop_first() =~= pairs.skip(i as int + 1));
        i += 1;
    }
    name.to_owned()
}

fn apply_rename_all(renames: &Vec<(String, String)>, names: &Vec<String>) -> (r: Vec<String>)
    ensures
        names_of(r@) == renamed_all(name_pairs_of(renames@), names_of(names@)),
{
    let mut r: Vec<String> = Vec::new();
    let mut i: usize = 0;
    while i < names.len()
        invariant
            i <= names.len(),
            r.len() == i,
            forall|j: int|
                0 <= j < i ==> (#[trigger] r@[j])@ == renamed(
                    name_pairs_of(renames@),
                    names_of(names@)[j],
                ),
        decreases names.len() - i,
    {
        r.push(apply_rename(renames, names[i].as_str()));
        i += 1;
    }
    assert(names_of(r@) =~= renamed_all(name_pairs_of(renames@), names_of(names@)));
    r
}

/// The origin of an operator over two operands.
pub fn combine_origin(lhs: StorageOrigin, rhs: StorageOrigin) -> (r: StorageOrigin)
    ensures
        r == combined(lhs, rhs),
{
    match (lhs, rhs) {
        (StorageOrigin::RelvarRooted, StorageOrigin::RelvarRooted) => StorageOrigin::RelvarRooted,
        (StorageOrigin::Materialized, StorageOrigin::Materialized) => StorageOrigin::Materialized,
        _ => StorageOrigin::Mixed,
    }
}

/// Whether every name of `k` stands in `names`.
pub fn all_within(k: &Vec<String>, names: &Vec<String>) -> (r: bool)
    ensures
        r == all_in(names_of(k@), names_of(names@)),
{
    let mut i: usize = 0;
    while i < k.len()
        invariant
            i <= k.len(),
            forall|j: int| 0 <= j < i ==> names_of(names@).contains(#[trigger] names_of(k@)[j]),
        decreases k.len() - i,
    {
        if !has_name(names, k[i].as_str()) {
            assert(names_of(k@)[i as int] == k@[i as int]@);
            return false;
        }
        i += 1;
    }
    true
}

/// Whether no name of `k` stands in `names`.
pub fn none_within(k: &Vec<String>, names: &Vec<String>) -> (r: bool)
    ensures
        r == none_in(names_of(k@), names_of(names@)),
{
    let mut i: usize = 0;
    while i < k.len()
        invariant
            i <= k.len(),
            forall|j: int| 0 <= j < i ==> !names_of(names@).contains(#[trigger] names_of(k@)[j]),
        decreases k.len() - i,
    {
        if has_name(names, k[i].as_str()) {
            assert(names_of(k@)[i as int] == k@[i as int]@);
            return false;
        }
        i += 1;
    }
    true
}

/// Whether two name lists are the same list.
pub fn same_names(a: &Vec<String>, b: &Vec<String>) -> (r: bool)
    ensures
        r == (names_of(a@) == names_of(b@)),
{
    assert(names_of(a@).len() == a.len() && names_of(b@).len() == b.len());
    if a.len() != b.len() {
        return false;
    }
    let mut i: usize = 0;
    while i < a.len()
        invariant
            i <= a.len(),
            a.len() == b.len(),
            forall|j: int| 0 <= j < i ==> names_of(a@)[j] == names_of(b@)[j],
        decreases a.len() - i,
    {
        if !(a[i] == b[i]) {
            assert(names_of(a@)[i as int] != names_of(b@)[i as int]);
            return false;
        }
        i += 1;
    }
    assert(names_of(a@) =~= names_of(b@));
    true
}

/// Whether the list of name lists holds `k`.
pub fn has_names(lists: &Vec<Vec<String>>, k: &Vec<String>) -> (r: bool)
    ensures
        r == name_lists_of(lists@).contains(names_of(k@)),
{
    let mut i: usize = 0;
    while i < lists.len()
        invariant
            i <= lists.len(),
            forall|j: int| 0 <= j < i ==> name_lists_of(lists@)[j] != names_of(k@),
        decreases lists.len() - i,
    {
        if same_names(&lists[i], k) {
            assert(name_lists_of(lists@)[i as int] == names_of(k@));
            return true;
        }
        i += 1;
    }
    false
}

/// Adds `k` unless it is there already.
fn add_key(out: &mut Vec<Vec<String>>, k: Vec<String>)
    ensures
        name_lists_of(final(out)@) == add_new(name_lists_of(old(out)@), names_of(k@)),
{
    if !has_names(out, &k) {
        let ghost was = name_lists_of(out@);
        let ghost kv = names_of(k@);
        out.push(k);
        assert(name_lists_of(out@) =~= was.push(kv));
    }
}

/// Adds each of `keys` unless it is there already.
fn add_keys(out: &mut Vec<Vec<String>>, keys: &Vec<Vec<String>>)
    ensures
        name_lists_of(final(out)@) == add_each(name_lists_of(old(out)@), name_lists_of(keys@)),
{
    let mut i: usize = 0;
    let ghost start = name_lists_of(out@);
    let ghost ks = name_lists_of(keys@);
    assert(ks.take(0) =~= Seq::<Seq<Name>>::empty());
    while i < keys.len()
        invariant
            i <= keys.len(),
            ks == name_lists_of(keys@),
            name_lists_of(out@) == add_each(start, ks.take(i as int)),
        decreases keys.len() - i,
    {
        add_key(out, copy_names(&keys[i]));
        proof {
            assert(ks.take(i as int + 1).drop_last() =~= ks.take(i as int));
            assert(ks.take(i as int + 1).last() == ks[i as int]);
        }
        i += 1;
    }
    assert(ks.take(i as int) =~= ks);
}

/// Adds each of `names` to `k` unless it is there already.
pub fn add_names(k: &mut Vec<String>, names: &Vec<String>)
    ensures
        names_of(final(k)@) == add_each(names_of(old(k)@), names_of(names@)),
{
    let mut i: usize = 0;
    let ghost start = names_of(k@);
    let ghost ns = names_of(names@);
    assert(ns.take(0) =~= Seq::<Name>::empty());
    while i < names.len()
        invariant
            i <= names.len(),
            ns == names_of(names@),
            names_of(k@) == add_each(start, ns.take(i as int)),
        decreases names.len() - i,
    {
        let ghost was = names_of(k@);
        if !has_name(k, names[i].as_str()) {
            k.push(names[i].clone());
            assert(names_of(k@) =~= was.push(ns[i as int]));
        }
        proof {
            assert(ns.take(i as int + 1).drop_last() =~= ns.take(i as int));
            assert(ns.take(i as int + 1).last() == ns[i as int]);
        }
        i += 1;
    }
    assert(ns.take(i as int) =~= ns);
}

/// Whether some key lies within the join attributes.
fn any_covered(keys: &Vec<Vec<String>>, shared: &Vec<String>) -> (r: bool)
    ensures
        r == covered(name_lists_of(keys@), names_of(shared@)),
{
    let mut i: usize = 0;
    while i < keys.len()
        invariant
            i <= keys.len(),
            forall|j: int|
                0 <= j < i ==> !all_in(#[trigger] name_lists_of(keys@)[j], names_of(shared@)),
        decreases keys.len() - i,
    {
        if all_within(&keys[i], shared) {
            assert(all_in(name_lists_of(keys@)[i as int], names_of(shared@)));
            return true;
        }
        i += 1;
    }
    false
}

/// `lk ∪ rk` for each key of one side and each key of the other.
fn composite_keys(lks: &Vec<Vec<String>>, rks: &Vec<Vec<String>>) -> (r: Vec<Vec<String>>)
    ensures
        name_lists_of(r@) == composites(name_lists_of(lks@), name_lists_of(rks@)),
{
    let mut r: Vec<Vec<String>> = Vec::new();
    let mut i: usize = 0;
    let ghost ls = name_lists_of(lks@);
    let ghost rs = name_lists_of(rks@);
    assert(ls.take(0) =~= Seq::<Seq<Name>>::empty());
    assert(name_lists_of(r@) =~= Seq::<Seq<Name>>::empty());
    while i < lks.len()
        invariant
            i <= lks.len(),
            ls == name_lists_of(lks@),
            rs == name_lists_of(rks@),
            name_lists_of(r@) == composites(ls.take(i as int), rs),
        decreases lks.len() - i,
    {
        let ghost was = name_lists_of(r@);
        let mut j: usize = 0;
        assert(was =~= was + composites_with(ls[i as int], rs).take(0));
        while j < rks.len()
            invariant
                i < lks.len(),
                j <= rks.len(),
                ls == name_lists_of(lks@),
                rs == name_lists_of(rks@),
                name_lists_of(r@) == was + composites_with(ls[i as int], rs).take(j as int),
            decreases rks.len() - j,
        {
            let mut k = copy_names(&lks[i]);
            add_names(&mut k, &rks[j]);
            let ghost kv = names_of(k@);
            let ghost before_push = name_lists_of(r@);
            r.push(k);
            proof {
                let all = composites_with(ls[i as int], rs);
                assert(all[j as int] == kv);
                assert(name_lists_of(r@) =~= before_push.push(kv));
                assert(was + all.take(j as int + 1) =~= (was + all.take(j as int)).push(kv));
            }
            j += 1;
        }
        proof {
            let all = composites_with(ls[i as int], rs);
            assert(all.take(j as int) =~= all);
            assert(ls.take(i as int + 1).drop_last() =~= ls.take(i as int));
            assert(ls.take(i as int + 1).last() == ls[i as int]);
        }
        i += 1;
    }
    assert(ls.take(i as int) =~= ls);
    r
}

/// The keys whose names all stand (`inside`) or none stands in `names`.
fn select_keys(keys: &Vec<Vec<String>>, names: &Vec<String>, inside: bool) -> (r: Vec<Vec<String>>)
    ensures
        inside ==> name_lists_of(r@) == name_lists_of(keys@).filter(
            |k: Seq<Name>| all_in(k, names_of(names@)),
        ),
        !inside ==> name_lists_of(r@) == name_lists_of(keys@).filter(
            |k: Seq<Name>| none_in(k, names_of(names@)),
        ),
{
    let mut r: Vec<Vec<String>> = Vec::new();
    let mut i: usize = 0;
    let ghost ks = name_lists_of(keys@);
    let ghost ns = names_of(names@);
    let ghost within = |k: Seq<Name>| all_in(k, ns);
    let ghost outside = |k: Seq<Name>| none_in(k, ns);
    proof {
        reveal_with_fuel(Seq::filter, 1);
        assert(ks.take(0) =~= Seq::<Seq<Name>>::empty());
        assert(name_lists_of(r@) =~= Seq::<Seq<Name>>::empty());
    }
    while i < keys.len()
        invariant
            i <= keys.len(),
            ks == name_lists_of(keys@),
            ns == names_of(names@),
            within == (|k: Seq<Name>| all_in(k, ns)),
            outside == (|k: Seq<Name>| none_in(k, ns)),
            inside ==> name_lists_of(r@) == ks.take(i as int).filter(within),
            !inside ==> name_lists_of(r@) == ks.take(i as int).filter(outside),
        decreases keys.len() - i,
    {
        let ghost was = name_lists_of(r@);
        proof {
            reveal_with_fuel(Seq::filter, 1);
            assert(ks.take(i as int + 1).drop_last() =~= ks.take(i as int));
            assert(ks.take(i as int + 1).last() == ks[i as int]);
        }
        let wanted = if inside {
            all_within(&keys[i], names)
        } else {
            none_within(&keys[i], names)
        };
        if wanted {
            r.push(copy_names(&keys[i]));
            assert(name_lists_of(r@) =~= was.push(ks[i as int]));
        }
        i += 1;
    }
    assert(ks.take(i as int) =~= ks);
    r
}

/// Whether a key of exactly that one name is in the list.
fn has_single_key(keys: &Vec<Vec<String>>, name: &String) -> (r: bool)
    ensures
        r == name_lists_of(keys@).contains(seq![name@]),
{
    let mut single: Vec<String> = Vec::new();
    single.push(name.clone());
    assert(names_of(single@) =~= seq![name@]);
    has_names(keys, &single)
}

/// The component names of all pairs.
pub fn consumed_names(pairs: &Vec<(String, Heading)>) -> (r: Vec<String>)
    ensures
        names_of(r@) == consumed(named_headings(pairs@)),
{
    let mut r: Vec<String> = Vec::new();
    let mut i: usize = 0;
    let ghost ps = named_headings(pairs@);
    assert(ps.take(0) =~= Seq::<(Name, HeadingView)>::empty());
    assert(names_of(r@) =~= Seq::<Name>::empty());
    while i < pairs.len()
        invariant
            i <= pairs.len(),
            ps == named_headings(pairs@),
            names_of(r@) == consumed(ps.take(i as int)),
        decreases pairs.len() - i,
    {
        let ghost was = names_of(r@);
        let mut more = pairs[i].1.names();
        let ghost added = names_of(more@);
        r.append(&mut more);
        proof {
            assert(names_of(r@) =~= was + added);
            assert(ps.take(i as int + 1).drop_last() =~= ps.take(i as int));
            assert(ps.take(i as int + 1).last() == ps[i as int]);
        }
        i += 1;
    }
    assert(ps.take(i as int) =~= ps);
    r
}

/// Adds the gathered attributes, one for each pair, to `attrs`.
fn push_gathered(attrs: &mut Vec<(String, Type)>, pairs: &Vec<(String, Heading)>, relation: bool)
    ensures
        attrs_view(final(attrs)@) == attrs_view(old(attrs)@) + gathered_attrs(
            named_headings(pairs@),
            relation,
        ),
{
    let mut i: usize = 0;
    let ghost start = attrs_view(attrs@);
    let ghost all = gathered_attrs(named_headings(pairs@), relation);
    assert(start =~= start + all.take(0));
    while i < pairs.len()
        invariant
            i <= pairs.len(),
            all == gathered_attrs(named_headings(pairs@), relation),
            attrs_view(attrs@) == start + all.take(i as int),
        decreases pairs.len() - i,
    {
        let ghost was = attrs_view(attrs@);
        let h = pairs[i].1.clone();
        let ty = if relation {
            Type::Relation(h)
        } else {
            Type::Tuple(h)
        };
        attrs.push((pairs[i].0.clone(), ty));
        proof {
            assert(attrs_view(attrs@) =~= was.push(all[i as int]));
            assert(start + all.take(i as int + 1) =~= (start + all.take(i as int)).push(
                all[i as int],
            ));
        }
        i += 1;
    }
    assert(all.take(i as int) =~= all);
}

/// The attributes that expanding the named ones brings to the top.
fn lift_attrs(h: &Heading, names: &Vec<String>, relation: bool) -> (r: Vec<(String, Type)>)
    ensures
        attrs_view(r@) == lifted_attrs(h@, names_of(names@), relation),
{
    let mut r: Vec<(String, Type)> = Vec::new();
    let mut i: usize = 0;
    let ghost ns = names_of(names@);
    assert(ns.take(0) =~= Seq::<Name>::empty());
    assert(attrs_view(r@) =~= Seq::<(Name, TypeView)>::empty());
    while i < names.len()
        invariant
            i <= names.len(),
            ns == names_of(names@),
            attrs_view(r@) == lifted_attrs(h@, ns.take(i as int), relation),
        decreases names.len() - i,
    {
        let ghost was = attrs_view(r@);
        proof {
            assert(ns.take(i as int + 1).drop_last() =~= ns.take(i as int));
            assert(ns.take(i as int + 1).last() == ns[i as int]);
        }
        let mut more: Vec<(String, Type)> = match h.lookup(names[i].as_str()) {
            Some(Type::Tuple(sub)) => if relation {
                Vec::new()
            } else {
                copy_attrs(sub.attrs())
            },
            Some(Type::Relation(sub)) => if relation {
                copy_attrs(sub.attrs())
            } else {
                Vec::new()
            },
            _ => Vec::new(),
        };
        proof {
            assert(attrs_view(more@) =~= components_of(lookup_attr(h@, ns[i as int]), relation));
        }
        let ghost added = attrs_view(more@);
        r.append(&mut more);
        assert(attrs_view(r@) =~= was + added);
        i += 1;
    }
    assert(ns.take(i as int) =~= ns);
    r
}

impl RelExpr {
    /// The heading, when the joins that decide it give each shared attribute
    /// one type.
    pub fn checked_heading(&self) -> (r: Option<Heading>)
        ensures
            r is Some <==> self@.has_heading(),
            r matches Some(h) ==> h@ == self@.heading(),
    {
        if self.joins_agree() {
            Some(self.heading())
        } else {
            None
        }
    }

    fn joins_agree(&self) -> (r: bool)
        ensures
            r == self@.has_heading(),
        decreases self,
    {
        match self {
            RelExpr::RelvarRef { .. } => true,
            RelExpr::Restrict { input, .. } => input.joins_agree(),
            RelExpr::Project { input, .. } => input.joins_agree(),
            RelExpr::Rename { input, .. } => input.joins_agree(),
            RelExpr::Extend { input, .. } => input.joins_agree(),
            RelExpr::And { lhs, rhs } => {
                lhs.joins_agree() && rhs.joins_agree() && lhs.heading().union(
                    &rhs.heading(),
                ).is_some()
            },
            RelExpr::Or { lhs, .. } => lhs.joins_agree(),
            RelExpr::Minus { lhs, .. } => lhs.joins_agree(),
            RelExpr::Otherwise { primary, .. } => primary.joins_agree(),
            RelExpr::Semijoin { lhs, .. } => lhs.joins_agree(),
            RelExpr::TClose { input } => input.joins_agree(),
            RelExpr::Wrap { input, .. } => input.joins_agree(),
            RelExpr::Unwrap { input, .. } => input.joins_agree(),
            RelExpr::Group { input, .. } => input.joins_agree(),
            RelExpr::Ungroup { input, .. } => input.joins_agree(),
            RelExpr::MaterializedRelvar { .. } => true,
            RelExpr::RelParam { .. } => true,
        }
    }

    /// The heading of the relation that the expression yields.
    pub fn heading(&self) -> (r: Heading)
        requires
            self@.has_heading(),
        ensures
            r@ == self@.heading(),
        decreases self,
    {
        match self {
            RelExpr::RelvarRef { heading, .. } => heading.clone(),
            RelExpr::Restrict { input, .. } => input.heading(),
            RelExpr::Project { input, keep } => Heading::new(input.heading().within(keep)),
            RelExpr::Rename { input, renames } => {
                let h = input.heading();
                let attrs = h.attrs();
                let mut remapped: Vec<(String, Type)> = Vec::new();
                let mut i: usize = 0;
                let ghost pairs = name_pairs_of(renames@);
                while i < attrs.len()
                    invariant
                        i <= attrs.len(),
                        remapped.len() == i,
                        attrs_view(attrs@) == h@,
                        pairs == name_pairs_of(renames@),
                        forall|j: int|
                            0 <= j < i ==> (#[trigger] remapped@[j]).0@ == renamed(pairs, h@[j].0)
                                && remapped@[j].1@ == h@[j].1,
                    decreases attrs.len() - i,
                {
                    let n = apply_rename(renames, attrs[i].0.as_str());
                    let t = attrs[i].1.clone();
                    assert(h@[i as int] == attrs_view(attrs@)[i as int]);
                    remapped.push((n, t));
                    i += 1;
                }
                assert(attrs_view(remapped@) =~= renamed_attrs(pairs, h@));
                Heading::new(remapped)
            },
            RelExpr::Extend { input, extends } => {
                let h = input.heading();
                let mut attrs = copy_attrs(h.attrs());
                let ghost start = attrs_view(attrs@);
                let ghost all = extension_attrs(extends_view(extends@));
                let mut i: usize = 0;
                assert(start =~= start + all.take(0));
                while i < extends.len()
                    invariant
                        i <= extends.len(),
                        all == extension_attrs(extends_view(extends@)),
                        attrs_view(attrs@) == start + all.take(i as int),
                    decreases extends.len() - i,
                {
                    let ghost was = attrs_view(attrs@);
                    let t = extends[i].1.clone();
                    attrs.push((extends[i].0.clone(), t));
                    proof {
                        assert(attrs_view(attrs@) =~= was.push(all[i as int]));
                        assert(start + all.take(i as int + 1) =~= (start + all.take(
                            i as int,
                        )).push(all[i as int]));
                    }
                    i += 1;
                }
                assert(all.take(i as int) =~= all);
                Heading::new(attrs)
            },
            RelExpr::And { lhs, rhs } => {
                match lhs.heading().union(&rhs.heading()) {
                    Some(h) => h,
                    None => Heading::empty(),
                }
            },
            RelExpr::Or { lhs, .. } => lhs.heading(),
            RelExpr::Minus { lhs, .. } => lhs.heading(),
            RelExpr::Otherwise { primary, .. } => primary.heading(),
            RelExpr::Semijoin { lhs, .. } => lhs.heading(),
            RelExpr::TClose { input } => input.heading(),
            RelExpr::Wrap { input, wraps } => {
                let gone = consumed_names(wraps);
                let mut attrs = input.heading().without(&gone);
                push_gathered(&mut attrs, wraps, false);
                Heading::new(attrs)
            },
            RelExpr::Unwrap { input, names } => {
                let h = input.heading();
                let mut attrs = h.without(names);
                let mut lifted = lift_attrs(&h, names, false);
                let ghost a = attrs_view(attrs@);
                let ghost b = attrs_view(lifted@);
                attrs.append(&mut lifted);
                assert(attrs_view(attrs@) =~= a + b);
                Heading::new(attrs)
            },
            RelExpr::Group { input, groups } => {
                let gone = consumed_names(groups);
                let mut attrs = input.heading().without(&gone);
                push_gathered(&mut attrs, groups, true);
                Heading::new(attrs)
            },
            RelExpr::Ungroup { input, names } => {
                let h = input.heading();
                let mut attrs = h.without(names);
                let mut lifted = lift_attrs(&h, names, true);
                let ghost a = attrs_view(attrs@);
                let ghost b = attrs_view(lifted@);
                attrs.append(&mut lifted);
                assert(attrs_view(attrs@) =~= a + b);
                Heading::new(attrs)
            },
            RelExpr::MaterializedRelvar { heading, .. } => heading.clone(),
            RelExpr::RelParam { heading, .. } => heading.clone(),
        }
    }

    /// Where the expression's data is rooted.
    pub fn origin(&self) -> (r: StorageOrigin)
        ensures
            r == self@.origin(),
        decreases self,
    {
        match self {
            RelExpr::RelvarRef { .. } => StorageOrigin::RelvarRooted,
            RelExpr::Restrict { input, .. } => input.origin(),
            RelExpr::Project { input, .. } => input.origin(),
            RelExpr::Rename { input, .. } => input.origin(),
            RelExpr::Extend { input, .. } => input.origin(),
            RelExpr::And { lhs, rhs } => combine_origin(lhs.origin(), rhs.origin()),
            RelExpr::Or { lhs, rhs } => combine_origin(lhs.origin(), rhs.origin()),
            RelExpr::Minus { lhs, rhs } => combine_origin(lhs.origin(), rhs.origin()),
            RelExpr::Otherwise { primary, fallback } => combine_origin(
                primary.origin(),
                fallback.origin(),
            ),
            RelExpr::Semijoin { lhs, rhs, .. } => combine_origin(lhs.origin(), rhs.origin()),
            RelExpr::TClose { input } => input.origin(),
            RelExpr::Wrap { input, .. } => input.origin(),
            RelExpr::Unwrap { input, .. } => input.origin(),
            RelExpr::Group { input, .. } => input.origin(),
            RelExpr::Ungroup { input, .. } => input.origin(),
            RelExpr::MaterializedRelvar { .. } => StorageOrigin::Materialized,
            RelExpr::RelParam { .. } => StorageOrigin::Materialized,
        }
    }

    /// Attribute sets each of which identifies a tuple of the result: no two
    /// tuples agree on one. They need not be minimal.
    pub fn surviving_keys(&self) -> (r: Vec<Vec<String>>)
        requires
            self@.has_keys(),
        ensures
            name_lists_of(r@) == self@.surviving_keys(),
        decreases self,
    {
        match self {
            RelExpr::RelvarRef { keys, .. } => copy_name_lists(keys),
            RelExpr::Restrict { input, .. } => input.surviving_keys(),
            RelExpr::Project { input, keep } => select_keys(&input.surviving_keys(), keep, true),
            RelExpr::Rename { input, renames } => {
                let keys = input.surviving_keys();
                let mut r: Vec<Vec<String>> = Vec::new();
                let mut i: usize = 0;
                while i < keys.len()
                    invariant
                        i <= keys.len(),
                        r.len() == i,
                        forall|j: int|
                            0 <= j < i ==> names_of((#[trigger] r@[j])@) == renamed_all(
                                name_pairs_of(renames@),
                                name_lists_of(keys@)[j],
                            ),
                    decreases keys.len() - i,
                {
                    r.push(apply_rename_all(renames, &keys[i]));
                    i += 1;
                }
                assert(name_lists_of(r@) =~= self@.surviving_keys());
                r
            },
            RelExpr::Extend { input, .. } => input.surviving_keys(),
            RelExpr::And { lhs, rhs } => {
                let shared = lhs.heading().shared_names(&rhs.heading());
                let lhs_keys = lhs.surviving_keys();
                let rhs_keys = rhs.surviving_keys();
                let mut out: Vec<Vec<String>> = Vec::new();
                assert(name_lists_of(out@) =~= Seq::<Seq<Name>>::empty());
                if any_covered(&rhs_keys, &shared) {
                    add_keys(&mut out, &lhs_keys);
                }
                if any_covered(&lhs_keys, &shared) {
                    add_keys(&mut out, &rhs_keys);
                }
                add_keys(&mut out, &composite_keys(&lhs_keys, &rhs_keys));
                out
            },
            RelExpr::Or { .. } => no_keys(),
            RelExpr::Minus { lhs, .. } => lhs.surviving_keys(),
            RelExpr::Otherwise { .. } => no_keys(),
            RelExpr::Semijoin { lhs, .. } => lhs.surviving_keys(),
            RelExpr::TClose { .. } => no_keys(),
            RelExpr::Wrap { .. } => no_keys(),
            RelExpr::Unwrap { .. } => no_keys(),
            RelExpr::Group { input, groups } => {
                let gone = consumed_names(groups);
                let survivors = names_of_attrs(&input.heading().without(&gone));
                let mut out: Vec<Vec<String>> = Vec::new();
                out.push(copy_names(&survivors));
                assert(name_lists_of(out@) =~= seq![names_of(survivors@)]);
                let inner = select_keys(&input.surviving_keys(), &survivors, true);
                add_keys(&mut out, &inner);
                out
            },
            RelExpr::Ungroup { input, names } => {
                let lifted = names_of_attrs(&lift_attrs(&input.heading(), names, true));
                let keys = select_keys(&input.surviving_keys(), names, false);
                let mut r: Vec<Vec<String>> = Vec::new();
                let mut i: usize = 0;
                while i < keys.len()
                    invariant
                        i <= keys.len(),
                        r.len() == i,
                        forall|j: int|
                            0 <= j < i ==> names_of((#[trigger] r@[j])@) == add_each(
                                name_lists_of(keys@)[j],
                                names_of(lifted@),
                            ),
                    decreases keys.len() - i,
                {
                    let mut k = copy_names(&keys[i]);
                    add_names(&mut k, &lifted);
                    r.push(k);
                    i += 1;
                }
                assert(name_lists_of(r@) =~= self@.surviving_keys());
                r
            },
            RelExpr::MaterializedRelvar { .. } => no_keys(),
            RelExpr::RelParam { heading, .. } => {
                let mut r: Vec<Vec<String>> = Vec::new();
                r.push(heading.names());
                assert(name_lists_of(r@) =~= seq![attr_names(heading@)]);
                r
            },
        }
    }

    /// Whether the expression provably has at most one tuple.
    pub fn card_le_one(&self) -> (r: bool)
        requires
            self@.has_card(),
        ensures
            r == self@.card_le_one(),
        decreases self,
    {
        match self {
            RelExpr::RelvarRef { .. } => false,
            RelExpr::Restrict { input, pred } => input.card_le_one() || match pred {
                Predicate::AttrCmp { attr, op, .. } => *op == CmpOp::Eq && has_single_key(
                    &input.surviving_keys(),
                    attr,
                ),
                Predicate::Gate(_) => false,
            },
            RelExpr::Project { input, .. } => input.card_le_one(),
            RelExpr::Rename { input, .. } => input.card_le_one(),
            RelExpr::Extend { input, .. } => input.card_le_one(),
            RelExpr::And { lhs, rhs } => lhs.card_le_one() && rhs.card_le_one(),
            RelExpr::Or { .. } => false,
            RelExpr::Minus { .. } => false,
            RelExpr::Otherwise { .. } => false,
            RelExpr::Semijoin { lhs, .. } => lhs.card_le_one(),
            RelExpr::TClose { .. } => false,
            RelExpr::Wrap { input, .. } => input.card_le_one(),
            RelExpr::Unwrap { input, .. } => input.card_le_one(),
            RelExpr::Group { input, groups } => input.card_le_one() || all_within(
                &input.heading().names(),
                &consumed_names(groups),
            ),
            RelExpr::Ungroup { .. } => false,
            RelExpr::MaterializedRelvar { .. } => false,
            RelExpr::RelParam { .. } => false,
        }
    }

    /// Whether a `SELECT` of the expression must be `DISTINCT` to be free of
    /// duplicates: neither a bound of one tuple nor a surviving key proves it.
    pub fn needs_distinct(&self) -> (r: bool)
        requires
            self@.has_card(),
            self@.card_le_one() || self@.has_keys(),
        ensures
            r == self@.needs_distinct(),
    {
        !(self.card_le_one() || !(self.surviving_keys().len() == 0))
    }

    /// Whether a relvar leaf reads the physical table.
    pub fn references_table(&self, table: &str) -> (r: bool)
        ensures
            r == self@.references_table(table@),
        decreases self,
    {
        match self {
            RelExpr::RelvarRef { table_name, .. } => same_text(table_name.as_str(), table),
            RelExpr::Restrict { input, .. } => input.references_table(table),
            RelExpr::Project { input, .. } => input.references_table(table),
            RelExpr::Rename { input, .. } => input.references_table(table),
            RelExpr::Extend { input, .. } => input.references_table(table),
            RelExpr::And { lhs, rhs } => lhs.references_table(table) || rhs.references_table(table),
            RelExpr::Or { lhs, rhs } => lhs.references_table(table) || rhs.references_table(table),
            RelExpr::Minus { lhs, rhs } => lhs.references_table(table) || rhs.references_table(
                table,
            ),
            RelExpr::Otherwise { primary, fallback } => primary.references_table(table)
                || fallback.references_table(table),
            RelExpr::Semijoin { lhs, rhs, .. } => lhs.references_table(table)
                || rhs.references_table(table),
            RelExpr::TClose { input } => input.references_table(table),
            RelExpr::Wrap { input, .. } => input.references_table(table),
            RelExpr::Unwrap { input, .. } => input.references_table(table),
            RelExpr::Group { input, .. } => input.references_table(table),
            RelExpr::Ungroup { input, .. } => input.references_table(table),
            RelExpr::MaterializedRelvar { .. } => false,
            RelExpr::RelParam { .. } => false,
        }
    }

    /// How many relation parameters the expression holds.
    pub fn rel_param_count(&self) -> (r: usize)
        requires
            self@.rel_param_count() <= usize::MAX,
        ensures
            r == self@.rel_param_count(),
        decreases self,
    {
        match self {
            RelExpr::RelvarRef { .. } => 0,
            RelExpr::Restrict { input, .. } => input.rel_param_count(),
            RelExpr::Project { input, .. } => input.rel_param_count(),
            RelExpr::Rename { input, .. } => input.rel_param_count(),
            RelExpr::Extend { input, .. } => input.rel_param_count(),
            RelExpr::And { lhs, rhs } => lhs.rel_param_count() + rhs.rel_param_count(),
            RelExpr::Or { lhs, rhs } => lhs.rel_param_count() + rhs.rel_param_count(),
            RelExpr::Minus { lhs, rhs } => lhs.rel_param_count() + rhs.rel_param_count(),
            RelExpr::Otherwise { primary, fallback } => primary.rel_param_count()
                + fallback.rel_param_count(),
            RelExpr::Semijoin { lhs, rhs, .. } => lhs.rel_param_count() + rhs.rel_param_count(),
            RelExpr::TClose { input } => input.rel_param_count(),
            RelExpr::Wrap { input, .. } => input.rel_param_count(),
            RelExpr::Unwrap { input, .. } => input.rel_param_count(),
            RelExpr::Group { input, .. } => input.rel_param_count(),
            RelExpr::Ungroup { input, .. } => input.rel_param_count(),
            RelExpr::MaterializedRelvar { .. } => 0,
            RelExpr::RelParam { .. } => 1,
        }
    }

    /// The rewriting of a root semijoin (under at most one projection) whose
    /// right side is the expression's only relation parameter, for the case
    /// that the parameter has exactly one row: an equality with the row's cell
    /// for each of its attributes. With it comes the parameter's slot. `None`
    /// when the expression has another shape, or when the parameter has an
    /// attribute that the left side lacks.
    pub fn card1_semijoin_specialization(&self) -> (r: Option<(RelExpr, usize)>)
        requires
            self@.rel_param_count() <= usize::MAX,
            self@.has_card1(),
        ensures
            r is Some <==> self@.card1_applies(),
            r matches Some(out) ==> out.0@ == self@.card1_rewritten() && out.1 == self@.card1_slot(),
    {
        proof {
            reveal_with_fuel(RelExpr::view, 3);
        }
        let (core, keep) = match self {
            RelExpr::Project { input, keep } => (&**input, Some(keep)),
            _ => (self, None),
        };
        let (lhs, rhs) = match core {
            RelExpr::Semijoin { lhs, rhs, negated } => {
                if *negated {
                    return None;
                }
                (lhs, rhs)
            },
            _ => {
                return None;
            },
        };
        let (slot, heading) = match &**rhs {
            RelExpr::RelParam { slot, heading } => (*slot, heading),
            _ => {
                return None;
            },
        };
        if self.rel_param_count() != 1 {
            return None;
        }
        let shared = lhs.heading().shared_names(heading);
        assert(names_of(shared@).len() == shared.len());
        if shared.len() != heading.len() {
            return None;
        }
        let mut rewritten = (**lhs).clone();
        let attrs = heading.attrs();
        let mut cell: usize = 0;
        while cell < attrs.len()
            invariant
                cell <= attrs.len(),
                attrs_view(attrs@) == heading@,
                rewritten@ == pinned(lhs@, slot as int, heading@, cell as int),
            decreases attrs.len() - cell,
        {
            assert(heading@[cell as int] == attrs_view(attrs@)[cell as int]);
            rewritten = RelExpr::Restrict {
                input: Box::new(rewritten),
                pred: Predicate::AttrCmp {
                    attr: attrs[cell].0.clone(),
                    op: CmpOp::Eq,
                    value: RestrictValue::SlotCell { slot, cell },
                },
            };
            cell += 1;
        }
        if let Some(keep) = keep {
            rewritten = RelExpr::Project { input: Box::new(rewritten), keep: copy_names(keep) };
        }
        Some((rewritten, slot))
    }
}

fn no_keys() -> (r: Vec<Vec<String>>)
    ensures
        name_lists_of(r@) == Seq::<Seq<Name>>::empty(),
{
    let r: Vec<Vec<String>> = Vec::new();
    assert(name_lists_of(r@) =~= Seq::<Seq<Name>>::empty());
    r
}

} // verus!
