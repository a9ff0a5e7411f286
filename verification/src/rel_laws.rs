//! What the analyses of relational expressions promise about their meaning.

use crate::rel_analysis::{
    add_each, all_in, components_of, composites, composites_with, consumed, covered,
    extension_attrs, gathered_attrs, join_keys, lifted_attrs, none_in, pinned, renamed,
    renamed_all, renamed_attrs,
};
use crate::rel_expr::{CmpOp, RelView, RestrictValueView, ScalarView, StorageOrigin};
use crate::rel_meaning::{
    agree_on, beside, extended, grouped, is_renamed, narrow, over, picked, strip, unwrapped,
    wrapped, Row, World,
};
use crate::text::Name;
use crate::types::{
    attr_names, attrs_within, attrs_without, canonical, heading_union, insert_attr, lookup_attr,
    shared_of, HeadingView, TypeView,
};
use vstd::prelude::*;

verus! {

proof fn lemma_push_contains<A>(s: Seq<A>, x: A, y: A)
    ensures
        s.push(x).contains(y) <==> s.contains(y) || x == y,
{
    if s.contains(y) {
        let i = choose|i: int| 0 <= i < s.len() && s[i] == y;
        assert(s.push(x)[i] == y);
    }
    if x == y {
        assert(s.push(x)[s.len() as int] == y);
    }
    if s.push(x).contains(y) && x != y {
        let i = choose|i: int| 0 <= i < s.push(x).len() && s.push(x)[i] == y;
        assert(s[i] == y);
    }
}

proof fn lemma_concat_contains<A>(s: Seq<A>, t: Seq<A>, y: A)
    ensures
        (s + t).contains(y) <==> s.contains(y) || t.contains(y),
{
    if s.contains(y) {
        let i = choose|i: int| 0 <= i < s.len() && s[i] == y;
        assert((s + t)[i] == y);
    }
    if t.contains(y) {
        let i = choose|i: int| 0 <= i < t.len() && t[i] == y;
        assert((s + t)[s.len() + i] == y);
    }
    if (s + t).contains(y) {
        let i = choose|i: int| 0 <= i < (s + t).len() && (s + t)[i] == y;
        if i < s.len() {
            assert(s[i] == y);
        } else {
            assert(t[i - s.len()] == y);
        }
    }
}

proof fn lemma_last_contains<A>(s: Seq<A>, y: A)
    requires
        s.len() > 0,
    ensures
        s.contains(y) <==> s.drop_last().contains(y) || s.last() == y,
{
    assert(s =~= s.drop_last().push(s.last()));
    lemma_push_contains(s.drop_last(), s.last(), y);
}

proof fn lemma_add_each_contains<A>(s: Seq<A>, xs: Seq<A>, y: A)
    ensures
        add_each(s, xs).contains(y) <==> s.contains(y) || xs.contains(y),
    decreases xs.len(),
{
    if xs.len() > 0 {
        lemma_add_each_contains(s, xs.drop_last(), y);
        lemma_last_contains(xs, y);
        lemma_push_contains(add_each(s, xs.drop_last()), xs.last(), y);
    }
}

pub proof fn lemma_filter_contains<A>(s: Seq<A>, p: spec_fn(A) -> bool, y: A)
    ensures
        s.filter(p).contains(y) <==> s.contains(y) && p(y),
    decreases s.len(),
{
    reveal_with_fuel(Seq::filter, 1);
    if s.len() > 0 {
        lemma_filter_contains(s.drop_last(), p, y);
        lemma_last_contains(s, y);
        lemma_push_contains(s.drop_last().filter(p), s.last(), y);
    }
}

proof fn lemma_names_contains(h: HeadingView, n: Name)
    ensures
        attr_names(h).contains(n) <==> exists|i: int| 0 <= i < h.len() && #[trigger] h[i].0 == n,
{
    if exists|i: int| 0 <= i < h.len() && #[trigger] h[i].0 == n {
        let i = choose|i: int| 0 <= i < h.len() && #[trigger] h[i].0 == n;
        assert(attr_names(h)[i] == n);
    }
}

proof fn lemma_names_push(h: HeadingView, a: (Name, TypeView), n: Name)
    ensures
        attr_names(h.push(a)).contains(n) <==> attr_names(h).contains(n) || a.0 == n,
{
    assert(attr_names(h.push(a)) =~= attr_names(h).push(a.0));
    lemma_push_contains(attr_names(h), a.0, n);
}

proof fn lemma_names_concat(g: HeadingView, h: HeadingView, n: Name)
    ensures
        attr_names(g + h).contains(n) <==> attr_names(g).contains(n) || attr_names(h).contains(n),
{
    assert(attr_names(g + h) =~= attr_names(g) + attr_names(h));
    lemma_concat_contains(attr_names(g), attr_names(h), n);
}

proof fn lemma_insert_names(s: HeadingView, a: (Name, TypeView), n: Name)
    ensures
        attr_names(insert_attr(s, a)).contains(n) <==> attr_names(s).contains(n) || a.0 == n,
    decreases s.len(),
{
    lemma_names_push(s, a, n);
    if s.len() > 0 {
        lemma_insert_names(s.drop_last(), a, n);
        assert(s =~= s.drop_last().push(s.last()));
        lemma_names_push(s.drop_last(), s.last(), n);
        lemma_names_push(insert_attr(s.drop_last(), a), s.last(), n);
    }
}

pub proof fn lemma_canonical_names(s: HeadingView, n: Name)
    ensures
        attr_names(canonical(s)).contains(n) <==> attr_names(s).contains(n),
    decreases s.len(),
{
    if s.len() > 0 {
        lemma_canonical_names(s.drop_last(), n);
        lemma_insert_names(canonical(s.drop_last()), s.last(), n);
        assert(s =~= s.drop_last().push(s.last()));
        lemma_names_push(s.drop_last(), s.last(), n);
    }
}

pub proof fn lemma_within_names(s: HeadingView, names: Seq<Name>, n: Name)
    ensures
        attr_names(attrs_within(s, names)).contains(n) <==> attr_names(s).contains(n)
            && names.contains(n),
        attr_names(attrs_without(s, names)).contains(n) <==> attr_names(s).contains(n)
            && !names.contains(n),
    decreases s.len(),
{
    reveal_with_fuel(Seq::filter, 1);
    if s.len() > 0 {
        let t = s.drop_last();
        lemma_within_names(t, names, n);
        assert(s =~= t.push(s.last()));
        lemma_names_push(t, s.last(), n);
        lemma_names_push(attrs_within(t, names), s.last(), n);
        lemma_names_push(attrs_without(t, names), s.last(), n);
    }
}

pub proof fn lemma_shared_names(a: HeadingView, b: HeadingView, n: Name)
    ensures
        shared_of(a, b).contains(n) <==> attr_names(a).contains(n) && attr_names(b).contains(n),
{
    lemma_within_names(a, attr_names(b), n);
}

pub proof fn lemma_union_names(a: HeadingView, b: HeadingView, n: Name)
    ensures
        attr_names(heading_union(a, b)).contains(n) <==> attr_names(a).contains(n) || attr_names(
            b,
        ).contains(n),
{
    let rest = attrs_without(b, attr_names(a));
    lemma_canonical_names(a + rest, n);
    lemma_names_concat(a, rest, n);
    lemma_within_names(b, attr_names(a), n);
}

proof fn lemma_all_in(k: Seq<Name>, names: Seq<Name>)
    ensures
        all_in(k, names) <==> forall|n: Name| k.contains(n) ==> #[trigger] names.contains(n),
{
    if forall|n: Name| k.contains(n) ==> #[trigger] names.contains(n) {
        assert forall|i: int| 0 <= i < k.len() implies names.contains(#[trigger] k[i]) by {
            assert(k.contains(k[i]));
        }
    }
}

proof fn lemma_none_in(k: Seq<Name>, names: Seq<Name>)
    ensures
        none_in(k, names) <==> forall|n: Name| k.contains(n) ==> !#[trigger] names.contains(n),
{
    if forall|n: Name| k.contains(n) ==> !#[trigger] names.contains(n) {
        assert forall|i: int| 0 <= i < k.len() implies !names.contains(#[trigger] k[i]) by {
            assert(k.contains(k[i]));
        }
    }
}

/// Every key of a join is a key of one side while the join attributes cover a
/// key of the other, or the union of a key of each side.
proof fn lemma_join_keys(
    lks: Seq<Seq<Name>>,
    rks: Seq<Seq<Name>>,
    shared: Seq<Name>,
    k: Seq<Name>,
)
    requires
        join_keys(lks, rks, shared).contains(k),
    ensures
        ({
            ||| lks.contains(k) && covered(rks, shared)
            ||| rks.contains(k) && covered(lks, shared)
            ||| exists|i: int, j: int|
                0 <= i < lks.len() && 0 <= j < rks.len() && k == #[trigger] add_each(
                    lks[i],
                    rks[j],
                )
        }),
{
    let from_left = if covered(rks, shared) {
        add_each(Seq::empty(), lks)
    } else {
        Seq::empty()
    };
    let from_both = if covered(lks, shared) {
        add_each(from_left, rks)
    } else {
        from_left
    };
    lemma_add_each_contains(from_both, composites(lks, rks), k);
    lemma_add_each_contains(from_left, rks, k);
    lemma_add_each_contains(Seq::empty(), lks, k);
    if composites(lks, rks).contains(k) {
        lemma_composites(lks, rks, k);
    }
}

proof fn lemma_composites(lks: Seq<Seq<Name>>, rks: Seq<Seq<Name>>, k: Seq<Name>)
    requires
        composites(lks, rks).contains(k),
    ensures
        exists|i: int, j: int|
            0 <= i < lks.len() && 0 <= j < rks.len() && k == #[trigger] add_each(lks[i], rks[j]),
    decreases lks.len(),
{
    if lks.len() > 0 {
        let rest = composites(lks.drop_last(), rks);
        let row = composites_with(lks.last(), rks);
        lemma_concat_contains(rest, row, k);
        if rest.contains(k) {
            lemma_composites(lks.drop_last(), rks, k);
            let (i, j) = choose|i: int, j: int|
                0 <= i < lks.drop_last().len() && 0 <= j < rks.len() && k == #[trigger] add_each(
                    lks.drop_last()[i],
                    rks[j],
                );
            assert(k == add_each(lks[i], rks[j]));
        } else {
            let j = choose|j: int| 0 <= j < row.len() && row[j] == k;
            assert(k == add_each(lks[lks.len() - 1], rks[j]));
        }
    }
}

/// The key of an expression is made of attributes of its result: an attribute
/// that a projection removes is in no surviving key.
pub proof fn law_keys_are_attributes(e: RelView, k: Seq<Name>)
    requires
        e.well_typed(),
        e.surviving_keys().contains(k),
    ensures
        all_in(k, e.attributes()),
    decreases e,
{
    lemma_all_in(k, e.attributes());
    match e {
        RelView::RelvarRef { heading, keys, .. } => {
            let i = choose|i: int| 0 <= i < keys.len() && keys[i] == k;
            assert(all_in(keys[i], attr_names(heading)));
        },
        RelView::Restrict { input, .. } => law_keys_are_attributes(*input, k),
        RelView::Project { input, keep } => {
            lemma_filter_contains(input.surviving_keys(), |x: Seq<Name>| all_in(x, keep), k);
            law_keys_are_attributes(*input, k);
            assert forall|n: Name| k.contains(n) implies #[trigger] e.attributes().contains(n) by {
                let i = choose|i: int| 0 <= i < k.len() && k[i] == n;
                lemma_within_names(input.heading(), keep, n);
                lemma_canonical_names(attrs_within(input.heading(), keep), n);
            }
        },
        RelView::Rename { input, renames } => {
            let ks = input.surviving_keys();
            let i = choose|i: int| 0 <= i < e.surviving_keys().len() && e.surviving_keys()[i] == k;
            let k0 = ks[i];
            assert(k == renamed_all(renames, k0));
            assert(ks.contains(k0));
            law_keys_are_attributes(*input, k0);
            assert forall|n: Name| k.contains(n) implies #[trigger] e.attributes().contains(n) by {
                let j = choose|j: int| 0 <= j < k.len() && k[j] == n;
                assert(input.attributes().contains(k0[j]));
                let m = choose|m: int|
                    0 <= m < input.attributes().len() && input.attributes()[m] == k0[j];
                let h = renamed_attrs(renames, input.heading());
                assert(h[m].0 == n);
                lemma_names_contains(h, n);
                lemma_canonical_names(h, n);
            }
        },
        RelView::Extend { input, extends } => {
            law_keys_are_attributes(*input, k);
            assert forall|n: Name| k.contains(n) implies #[trigger] e.attributes().contains(n) by {
                let i = choose|i: int| 0 <= i < k.len() && k[i] == n;
                lemma_names_concat(input.heading(), extension_attrs(extends), n);
                lemma_canonical_names(input.heading() + extension_attrs(extends), n);
            }
        },
        RelView::And { lhs, rhs } => {
            let lks = lhs.surviving_keys();
            let rks = rhs.surviving_keys();
            let shared = shared_of(lhs.heading(), rhs.heading());
            lemma_join_keys(lks, rks, shared, k);
            assert forall|n: Name| k.contains(n) implies #[trigger] e.attributes().contains(n) by {
                lemma_union_names(lhs.heading(), rhs.heading(), n);
                let p = choose|p: int| 0 <= p < k.len() && k[p] == n;
                if lks.contains(k) {
                    law_keys_are_attributes(*lhs, k);
                    assert(lhs.attributes().contains(k[p]));
                } else if rks.contains(k) {
                    law_keys_are_attributes(*rhs, k);
                    assert(rhs.attributes().contains(k[p]));
                } else {
                    let (i, j) = choose|i: int, j: int|
                        0 <= i < lks.len() && 0 <= j < rks.len() && k == #[trigger] add_each(
                            lks[i],
                            rks[j],
                        );
                    lemma_add_each_contains(lks[i], rks[j], n);
                    if lks[i].contains(n) {
                        assert(lks.contains(lks[i]));
                        law_keys_are_attributes(*lhs, lks[i]);
                        lemma_all_in(lks[i], lhs.attributes());
                        assert(lhs.attributes().contains(n));
                    } else {
                        assert(rks.contains(rks[j]));
                        law_keys_are_attributes(*rhs, rks[j]);
                        lemma_all_in(rks[j], rhs.attributes());
                        assert(rhs.attributes().contains(n));
                    }
                }
            }
        },
        RelView::Minus { lhs, .. } => law_keys_are_attributes(*lhs, k),
        RelView::Semijoin { lhs, .. } => law_keys_are_attributes(*lhs, k),
        RelView::Group { input, groups } => {
            let gone = consumed(groups);
            let kept = attrs_without(input.heading(), gone);
            let survivors = attr_names(kept);
            let inner = input.surviving_keys().filter(|x: Seq<Name>| all_in(x, survivors));
            lemma_add_each_contains(seq![survivors], inner, k);
            lemma_filter_contains(input.surviving_keys(), |x: Seq<Name>| all_in(x, survivors), k);
            assert(seq![survivors].contains(k) ==> k == survivors);
            assert forall|n: Name| k.contains(n) implies #[trigger] e.attributes().contains(n) by {
                let i = choose|i: int| 0 <= i < k.len() && k[i] == n;
                assert(survivors.contains(n));
                lemma_names_concat(kept, gathered_attrs(groups, true), n);
                lemma_canonical_names(kept + gathered_attrs(groups, true), n);
            }
        },
        RelView::Ungroup { input, names } => {
            let up = lifted_attrs(input.heading(), names, true);
            let kept = attrs_without(input.heading(), names);
            let f = |x: Seq<Name>| none_in(x, names);
            let ks = input.surviving_keys().filter(f);
            let i = choose|i: int| 0 <= i < e.surviving_keys().len() && e.surviving_keys()[i] == k;
            let k0 = ks[i];
            assert(k == add_each(k0, attr_names(up)));
            assert(ks.contains(k0));
            lemma_filter_contains(input.surviving_keys(), f, k0);
            law_keys_are_attributes(*input, k0);
            assert forall|n: Name| k.contains(n) implies #[trigger] e.attributes().contains(n) by {
                lemma_add_each_contains(k0, attr_names(up), n);
                lemma_all_in(k0, input.attributes());
                lemma_none_in(k0, names);
                if k0.contains(n) {
                    assert(input.attributes().contains(n));
                    assert(!names.contains(n));
                }
                lemma_within_names(input.heading(), names, n);
                lemma_names_concat(kept, up, n);
                lemma_canonical_names(kept + up, n);
            }
        },
        RelView::RelParam { heading, .. } => {
            assert(k == attr_names(heading));
        },
        _ => {},
    }
}

proof fn lemma_extended_names(
    w: World,
    s: Row,
    extends: Seq<(Name, TypeView, ScalarView)>,
    n: Name,
)
    ensures
        extended(w, s, extends).dom().contains(n) <==> s.dom().contains(n) || attr_names(
            extension_attrs(extends),
        ).contains(n),
        !attr_names(extension_attrs(extends)).contains(n) ==> extended(w, s, extends)[n] == s[n],
    decreases extends.len(),
{
    if extends.len() > 0 {
        let t = extends.drop_last();
        lemma_extended_names(w, s, t, n);
        let a = (extends.last().0, extends.last().1);
        assert(extension_attrs(extends) =~= extension_attrs(t).push(a));
        lemma_names_push(extension_attrs(t), a, n);
    }
}

proof fn lemma_gathered_names(
    t: Seq<(Name, HeadingView)>,
    p: (Name, HeadingView),
    relation: bool,
    n: Name,
)
    ensures
        attr_names(gathered_attrs(t.push(p), relation)).contains(n) <==> attr_names(
            gathered_attrs(t, relation),
        ).contains(n) || p.0 == n,
{
    let g = gathered_attrs(t, relation);
    let a = gathered_attrs(t.push(p), relation).last();
    assert(gathered_attrs(t.push(p), relation) =~= g.push(a));
    lemma_names_push(g, a, n);
}

proof fn lemma_wrapped_names(
    w: World,
    s: Row,
    base: Row,
    wraps: Seq<(Name, HeadingView)>,
    n: Name,
)
    ensures
        wrapped(w, s, base, wraps).dom().contains(n) <==> base.dom().contains(n) || attr_names(
            gathered_attrs(wraps, false),
        ).contains(n),
    decreases wraps.len(),
{
    if wraps.len() > 0 {
        lemma_wrapped_names(w, s, base, wraps.drop_last(), n);
        assert(wraps =~= wraps.drop_last().push(wraps.last()));
        lemma_gathered_names(wraps.drop_last(), wraps.last(), false, n);
    }
}

proof fn lemma_grouped_names(
    w: World,
    input: RelView,
    base: Row,
    gone: Seq<Name>,
    groups: Seq<(Name, HeadingView)>,
    n: Name,
)
    ensures
        grouped(w, input, base, gone, groups).dom().contains(n) <==> base.dom().contains(n)
            || attr_names(gathered_attrs(groups, true)).contains(n),
        !attr_names(gathered_attrs(groups, true)).contains(n) ==> grouped(
            w,
            input,
            base,
            gone,
            groups,
        )[n] == base[n],
    decreases groups.len(),
{
    if groups.len() > 0 {
        lemma_grouped_names(w, input, base, gone, groups.drop_last(), n);
        assert(groups =~= groups.drop_last().push(groups.last()));
        lemma_gathered_names(groups.drop_last(), groups.last(), true, n);
    }
}

proof fn lemma_lifted_names(h: HeadingView, names: Seq<Name>, relation: bool, n: Name)
    requires
        names.len() > 0,
    ensures
        attr_names(lifted_attrs(h, names, relation)).contains(n) <==> attr_names(
            lifted_attrs(h, names.drop_last(), relation),
        ).contains(n) || attr_names(
            components_of(lookup_attr(h, names.last()), relation),
        ).contains(n),
{
    lemma_names_concat(
        lifted_attrs(h, names.drop_last(), relation),
        components_of(lookup_attr(h, names.last()), relation),
        n,
    );
}

proof fn lemma_unwrapped_names(
    w: World,
    s: Row,
    base: Row,
    names: Seq<Name>,
    h: HeadingView,
    n: Name,
)
    ensures
        unwrapped(w, s, base, names, h).dom().contains(n) <==> base.dom().contains(n)
            || attr_names(lifted_attrs(h, names, false)).contains(n),
    decreases names.len(),
{
    if names.len() > 0 {
        lemma_unwrapped_names(w, s, base, names.drop_last(), h, n);
        lemma_lifted_names(h, names, false, n);
    }
}

proof fn lemma_beside_names(
    w: World,
    s: Row,
    base: Row,
    names: Seq<Name>,
    h: HeadingView,
    picks: Seq<Row>,
    n: Name,
)
    requires
        picked(w, s, names, h, picks),
    ensures
        beside(base, picks).dom().contains(n) <==> base.dom().contains(n) || attr_names(
            lifted_attrs(h, names, true),
        ).contains(n),
        base.dom().contains(n) && !attr_names(lifted_attrs(h, names, true)).contains(n) ==> beside(
            base,
            picks,
        )[n] == base[n],
    decreases names.len(),
{
    if names.len() > 0 {
        let t = names.drop_last();
        let ps = picks.drop_last();
        assert(picked(w, s, t, h, ps)) by {
            assert forall|i: int| 0 <= i < t.len() implies (w.member)(s[t[i]], #[trigger] ps[i])
                && over(ps[i], attr_names(components_of(lookup_attr(h, t[i]), true))) by {
                assert(ps[i] == picks[i]);
                assert(t[i] == names[i]);
            }
        }
        lemma_beside_names(w, s, base, t, h, ps, n);
        lemma_lifted_names(h, names, true, n);
        assert(over(
            picks[names.len() - 1],
            attr_names(components_of(lookup_attr(h, names[names.len() - 1]), true)),
        ));
        assert(picks.last() == picks[names.len() - 1]);
        assert(names.last() == names[names.len() - 1]);
    }
}

/// Every row of the result has exactly the attributes of the heading.
pub proof fn law_rows_fit_heading(e: RelView, w: World, r: Row)
    requires
        e.well_typed(),
        e.legal_in(w),
        e.yields(w, r),
    ensures
        over(r, e.attributes()),
    decreases e,
{
    match e {
        RelView::RelvarRef { .. } => {},
        RelView::Restrict { input, .. } => law_rows_fit_heading(*input, w, r),
        RelView::Project { input, keep } => {
            let s = choose|s: Row| input.yields(w, s) && r == #[trigger] narrow(s, keep);
            law_rows_fit_heading(*input, w, s);
            assert forall|n: Name| #[trigger]
                r.dom().contains(n) <==> e.attributes().contains(n) by {
                lemma_within_names(input.heading(), keep, n);
                lemma_canonical_names(attrs_within(input.heading(), keep), n);
                assert(s.dom().contains(n) <==> input.attributes().contains(n));
            }
        },
        RelView::Rename { input, renames } => {
            let s = choose|s: Row| input.yields(w, s) && #[trigger] is_renamed(s, r, renames);
            law_rows_fit_heading(*input, w, s);
            let h = renamed_attrs(renames, input.heading());
            assert forall|n: Name| #[trigger]
                r.dom().contains(n) <==> e.attributes().contains(n) by {
                lemma_canonical_names(h, n);
                lemma_names_contains(h, n);
                if r.dom().contains(n) {
                    let m = choose|m: Name|
                        s.dom().contains(m) && #[trigger] renamed(renames, m) == n;
                    assert(input.attributes().contains(m));
                    let i = choose|i: int|
                        0 <= i < input.attributes().len() && input.attributes()[i] == m;
                    assert(h[i].0 == n);
                }
                if attr_names(h).contains(n) {
                    let i = choose|i: int| 0 <= i < h.len() && #[trigger] h[i].0 == n;
                    let m = input.heading()[i].0;
                    assert(input.attributes()[i] == m);
                    assert(input.attributes().contains(m));
                    assert(s.dom().contains(m));
                }
            }
        },
        RelView::Extend { input, extends } => {
            let s = choose|s: Row| input.yields(w, s) && r == #[trigger] extended(w, s, extends);
            law_rows_fit_heading(*input, w, s);
            assert forall|n: Name| #[trigger]
                r.dom().contains(n) <==> e.attributes().contains(n) by {
                lemma_extended_names(w, s, extends, n);
                lemma_names_concat(input.heading(), extension_attrs(extends), n);
                lemma_canonical_names(input.heading() + extension_attrs(extends), n);
                assert(s.dom().contains(n) <==> input.attributes().contains(n));
            }
        },
        RelView::And { lhs, rhs } => {
            let a = narrow(r, lhs.attributes());
            let b = narrow(r, rhs.attributes());
            law_rows_fit_heading(*lhs, w, a);
            law_rows_fit_heading(*rhs, w, b);
            assert forall|n: Name| #[trigger]
                r.dom().contains(n) <==> e.attributes().contains(n) by {
                lemma_union_names(lhs.heading(), rhs.heading(), n);
                assert(a.dom().contains(n) <==> lhs.attributes().contains(n));
                assert(b.dom().contains(n) <==> rhs.attributes().contains(n));
            }
        },
        RelView::Or { lhs, rhs } => {
            if lhs.yields(w, r) {
                law_rows_fit_heading(*lhs, w, r);
            } else {
                law_rows_fit_heading(*rhs, w, r);
            }
        },
        RelView::Minus { lhs, .. } => law_rows_fit_heading(*lhs, w, r),
        RelView::Otherwise { primary, fallback } => {
            if primary.yields(w, r) {
                law_rows_fit_heading(*primary, w, r);
            } else {
                law_rows_fit_heading(*fallback, w, r);
            }
        },
        RelView::Semijoin { lhs, .. } => law_rows_fit_heading(*lhs, w, r),
        RelView::TClose { input } => {
            let h = input.heading();
            assert forall|n: Name| #[trigger]
                r.dom().contains(n) <==> e.attributes().contains(n) by {
                lemma_names_contains(h, n);
                if e.attributes().contains(n) {
                    let i = choose|i: int| 0 <= i < h.len() && #[trigger] h[i].0 == n;
                    assert(i == 0 || i == 1);
                }
                if r.dom().contains(n) {
                    assert(h[0].0 == n || h[1].0 == n);
                }
            }
        },
        RelView::Wrap { input, wraps } => {
            let gone = consumed(wraps);
            let s = choose|s: Row| input.yields(w, s) && r == #[trigger] wrapped(w, s, strip(s, gone), wraps);
            law_rows_fit_heading(*input, w, s);
            let kept = attrs_without(input.heading(), gone);
            let new = gathered_attrs(wraps, false);
            assert forall|n: Name| #[trigger]
                r.dom().contains(n) <==> e.attributes().contains(n) by {
                lemma_wrapped_names(w, s, strip(s, gone), wraps, n);
                lemma_within_names(input.heading(), gone, n);
                lemma_names_concat(kept, new, n);
                lemma_canonical_names(kept + new, n);
                assert(s.dom().contains(n) <==> input.attributes().contains(n));
            }
        },
        RelView::Unwrap { input, names } => {
            let h = input.heading();
            let s = choose|s: Row| input.yields(w, s) && r == #[trigger] unwrapped(w, s, strip(s, names), names, h);
            law_rows_fit_heading(*input, w, s);
            let kept = attrs_without(h, names);
            let up = lifted_attrs(h, names, false);
            assert forall|n: Name| #[trigger]
                r.dom().contains(n) <==> e.attributes().contains(n) by {
                lemma_unwrapped_names(w, s, strip(s, names), names, h, n);
                lemma_within_names(h, names, n);
                lemma_names_concat(kept, up, n);
                lemma_canonical_names(kept + up, n);
                assert(s.dom().contains(n) <==> input.attributes().contains(n));
            }
        },
        RelView::Group { input, groups } => {
            let gone = consumed(groups);
            let s = choose|s: Row| input.yields(w, s) && r == grouped(w, *input, #[trigger] strip(s, gone), gone, groups);
            law_rows_fit_heading(*input, w, s);
            let kept = attrs_without(input.heading(), gone);
            let new = gathered_attrs(groups, true);
            assert forall|n: Name| #[trigger]
                r.dom().contains(n) <==> e.attributes().contains(n) by {
                lemma_grouped_names(w, *input, strip(s, gone), gone, groups, n);
                lemma_within_names(input.heading(), gone, n);
                lemma_names_concat(kept, new, n);
                lemma_canonical_names(kept + new, n);
                assert(s.dom().contains(n) <==> input.attributes().contains(n));
            }
        },
        RelView::Ungroup { input, names } => {
            let h = input.heading();
            let (s, picks) = choose|s: Row, picks: Seq<Row>| input.yields(w, s) && #[trigger] picked(w, s, names, h, picks) && r == beside(
                    strip(s, names),
                    picks,
                );
            law_rows_fit_heading(*input, w, s);
            let kept = attrs_without(h, names);
            let up = lifted_attrs(h, names, true);
            assert forall|n: Name| #[trigger]
                r.dom().contains(n) <==> e.attributes().contains(n) by {
                lemma_beside_names(w, s, strip(s, names), names, h, picks, n);
                lemma_within_names(h, names, n);
                lemma_names_concat(kept, up, n);
                lemma_canonical_names(kept + up, n);
                assert(s.dom().contains(n) <==> input.attributes().contains(n));
            }
        },
        RelView::MaterializedRelvar { .. } => {},
        RelView::RelParam { .. } => {},
    }
}

/// Rows that agree on a key agree on the narrower key.
proof fn lemma_agree_subset(a: Row, b: Row, k: Seq<Name>, sub: Seq<Name>)
    requires
        agree_on(a, b, k),
        forall|n: Name| sub.contains(n) ==> #[trigger] k.contains(n),
    ensures
        agree_on(a, b, sub),
{
}

/// A surviving key identifies a row: no two rows of the result agree on it.
pub proof fn law_keys_identify_rows(e: RelView, w: World, k: Seq<Name>)
    requires
        e.well_typed(),
        e.legal_in(w),
        e.surviving_keys().contains(k),
    ensures
        e.unique_on(w, k),
    decreases e,
{
    assert forall|a: Row, b: Row| #[trigger]
        e.yields(w, a) && #[trigger] e.yields(w, b) && agree_on(a, b, k) implies a == b by {
        lemma_rows_with_one_key(e, w, k, a, b);
    }
}

proof fn lemma_rows_with_one_key(e: RelView, w: World, k: Seq<Name>, a: Row, b: Row)
    requires
        e.well_typed(),
        e.legal_in(w),
        e.surviving_keys().contains(k),
        e.yields(w, a),
        e.yields(w, b),
        agree_on(a, b, k),
    ensures
        a == b,
    decreases e, 2nat,
{
    law_rows_fit_heading(e, w, a);
    law_rows_fit_heading(e, w, b);
    law_keys_are_attributes(e, k);
    lemma_all_in(k, e.attributes());
    match e {
        RelView::RelvarRef { keys, .. } => {
            let i = choose|i: int| 0 <= i < keys.len() && keys[i] == k;
            assert(agree_on(a, b, keys[i]));
        },
        RelView::Restrict { input, .. } => lemma_rows_with_one_key(*input, w, k, a, b),
        RelView::Project { input, keep } => {
            lemma_filter_contains(input.surviving_keys(), |x: Seq<Name>| all_in(x, keep), k);
            let s = choose|s: Row| input.yields(w, s) && a == #[trigger] narrow(s, keep);
            let t = choose|s: Row| input.yields(w, s) && b == #[trigger] narrow(s, keep);
            lemma_narrow_keeps_key(*input, w, k, keep, s, t);
            lemma_rows_with_one_key(*input, w, k, s, t);
        },
        RelView::Rename { input, renames } => {
            let s = choose|s: Row| input.yields(w, s) && #[trigger] is_renamed(s, a, renames);
            let t = choose|s: Row| input.yields(w, s) && #[trigger] is_renamed(s, b, renames);
            let i = choose|i: int| 0 <= i < e.surviving_keys().len() && e.surviving_keys()[i] == k;
            let k0 = input.surviving_keys()[i];
            assert(input.surviving_keys().contains(k0));
            law_keys_are_attributes(*input, k0);
            lemma_all_in(k0, input.attributes());
            law_rows_fit_heading(*input, w, s);
            law_rows_fit_heading(*input, w, t);
            assert forall|n: Name| k0.contains(n) implies #[trigger] s[n] == #[trigger] t[n] by {
                let j = choose|j: int| 0 <= j < k0.len() && k0[j] == n;
                assert(k[j] == renamed(renames, n));
                assert(k.contains(renamed(renames, n)));
                assert(input.attributes().contains(n));
                assert(s.dom().contains(n) && t.dom().contains(n));
                assert(a[renamed(renames, n)] == b[renamed(renames, n)]);
            }
            lemma_rows_with_one_key(*input, w, k0, s, t);
            assert(a =~= b) by {
                assert forall|m: Name| a.dom().contains(m) implies a[m] == b[m] by {
                    let n = choose|n: Name|
                        s.dom().contains(n) && #[trigger] renamed(renames, n) == m;
                    assert(a[m] == s[n]);
                    assert(b[m] == t[n]);
                }
            }
        },
        RelView::Extend { input, extends } => {
            let s = choose|s: Row| input.yields(w, s) && a == #[trigger] extended(w, s, extends);
            let t = choose|s: Row| input.yields(w, s) && b == #[trigger] extended(w, s, extends);
            law_keys_are_attributes(*input, k);
            lemma_all_in(k, input.attributes());
            lemma_none_in(attr_names(extension_attrs(extends)), input.attributes());
            assert forall|n: Name| k.contains(n) implies #[trigger] s[n] == #[trigger] t[n] by {
                assert(input.attributes().contains(n));
                lemma_extended_names(w, s, extends, n);
                lemma_extended_names(w, t, extends, n);
                assert(a[n] == b[n]);
            }
            lemma_rows_with_one_key(*input, w, k, s, t);
        },
        RelView::And { lhs, rhs } => lemma_joined_rows(e, w, k, a, b),
        RelView::Minus { lhs, .. } => lemma_rows_with_one_key(*lhs, w, k, a, b),
        RelView::Semijoin { lhs, .. } => lemma_rows_with_one_key(*lhs, w, k, a, b),
        RelView::Group { input, groups } => {
            let gone = consumed(groups);
            let survivors = attr_names(attrs_without(input.heading(), gone));
            let inner = input.surviving_keys().filter(|x: Seq<Name>| all_in(x, survivors));
            let s = choose|s: Row|
                input.yields(w, s) && a == grouped(
                    w,
                    *input,
                    #[trigger] strip(s, gone),
                    gone,
                    groups,
                );
            let t = choose|s: Row|
                input.yields(w, s) && b == grouped(
                    w,
                    *input,
                    #[trigger] strip(s, gone),
                    gone,
                    groups,
                );
            law_rows_fit_heading(*input, w, s);
            law_rows_fit_heading(*input, w, t);
            lemma_none_in(attr_names(gathered_attrs(groups, true)), survivors);
            lemma_add_each_contains(seq![survivors], inner, k);
            lemma_filter_contains(input.surviving_keys(), |x: Seq<Name>| all_in(x, survivors), k);
            assert(seq![survivors].contains(k) ==> k == survivors);
            assert forall|n: Name| survivors.contains(n) && k.contains(n) implies #[trigger] s[n]
                == #[trigger] t[n] by {
                lemma_within_names(input.heading(), gone, n);
                lemma_grouped_names(w, *input, strip(s, gone), gone, groups, n);
                lemma_grouped_names(w, *input, strip(t, gone), gone, groups, n);
                assert(s.dom().contains(n) && t.dom().contains(n));
                assert(a[n] == b[n]);
            }
            lemma_all_in(k, survivors);
            if k != survivors {
                lemma_rows_with_one_key(*input, w, k, s, t);
            }
            assert(strip(s, gone) =~= strip(t, gone)) by {
                assert forall|n: Name|
                    strip(s, gone).dom().contains(n) <==> strip(t, gone).dom().contains(n) by {
                    assert(s.dom().contains(n) <==> t.dom().contains(n));
                }
                assert forall|n: Name| strip(s, gone).dom().contains(n) implies strip(s, gone)[n]
                    == strip(t, gone)[n] by {
                    lemma_within_names(input.heading(), gone, n);
                    assert(input.attributes().contains(n));
                    assert(survivors.contains(n));
                    assert(s[n] == t[n]);
                }
            }
        },
        RelView::Ungroup { input, names } => lemma_ungrouped_rows(*input, names, w, k, a, b),
        RelView::RelParam { heading, .. } => {
            assert(k == attr_names(heading));
            assert(a =~= b) by {
                assert forall|n: Name| a.dom().contains(n) implies a[n] == b[n] by {
                    assert(k.contains(n));
                }
            }
        },
        _ => {},
    }
}

/// Narrowing to attributes that hold a key keeps the key apart.
proof fn lemma_narrow_keeps_key(
    e: RelView,
    w: World,
    k: Seq<Name>,
    keep: Seq<Name>,
    s: Row,
    t: Row,
)
    requires
        e.well_typed(),
        e.legal_in(w),
        e.surviving_keys().contains(k),
        all_in(k, keep),
        e.yields(w, s),
        e.yields(w, t),
        agree_on(narrow(s, keep), narrow(t, keep), k),
    ensures
        agree_on(s, t, k),
{
    law_rows_fit_heading(e, w, s);
    law_rows_fit_heading(e, w, t);
    law_keys_are_attributes(e, k);
    lemma_all_in(k, e.attributes());
    lemma_all_in(k, keep);
    assert forall|n: Name| k.contains(n) implies #[trigger] s[n] == #[trigger] t[n] by {
        assert(e.attributes().contains(n) && keep.contains(n));
        assert(s.dom().contains(n) && t.dom().contains(n));
        assert(narrow(s, keep)[n] == narrow(t, keep)[n]);
    }
}

/// Two joined rows that agree on a key of the left side agree on all of the
/// left side, and likewise on the right.
proof fn lemma_side_of_join(
    side: RelView,
    w: World,
    k: Seq<Name>,
    a: Row,
    b: Row,
)
    requires
        side.well_typed(),
        side.legal_in(w),
        side.surviving_keys().contains(k),
        side.yields(w, narrow(a, side.attributes())),
        side.yields(w, narrow(b, side.attributes())),
        agree_on(a, b, k),
    ensures
        narrow(a, side.attributes()) == narrow(b, side.attributes()),
        agree_on(a, b, side.attributes()),
    decreases side, 3nat,
{
    let x = narrow(a, side.attributes());
    let y = narrow(b, side.attributes());
    law_rows_fit_heading(side, w, x);
    law_rows_fit_heading(side, w, y);
    law_keys_are_attributes(side, k);
    lemma_all_in(k, side.attributes());
    assert forall|n: Name| k.contains(n) implies #[trigger] x[n] == #[trigger] y[n] by {
        assert(side.attributes().contains(n));
        assert(x.dom().contains(n) && y.dom().contains(n));
        assert(a[n] == b[n]);
    }
    lemma_rows_with_one_key(side, w, k, x, y);
    assert forall|n: Name| side.attributes().contains(n) implies #[trigger] a[n]
        == #[trigger] b[n] by {
        assert(x.dom().contains(n) && y.dom().contains(n));
        assert(x[n] == a[n] && y[n] == b[n]);
    }
}

proof fn lemma_joined_rows(e: RelView, w: World, k: Seq<Name>, a: Row, b: Row)
    requires
        e is And,
        e.well_typed(),
        e.legal_in(w),
        e.surviving_keys().contains(k),
        e.yields(w, a),
        e.yields(w, b),
        agree_on(a, b, k),
    ensures
        a == b,
    decreases e, 1nat,
{
    let lhs = *e->And_lhs;
    let rhs = *e->And_rhs;
    let lks = lhs.surviving_keys();
    let rks = rhs.surviving_keys();
    let shared = shared_of(lhs.heading(), rhs.heading());
    lemma_join_keys(lks, rks, shared, k);
    if lks.contains(k) && covered(rks, shared) {
        lemma_side_of_join(lhs, w, k, a, b);
        let i = choose|i: int| 0 <= i < rks.len() && all_in(#[trigger] rks[i], shared);
        lemma_all_in(rks[i], shared);
        assert forall|n: Name| rks[i].contains(n) implies #[trigger] lhs.attributes().contains(
            n,
        ) by {
            assert(shared.contains(n));
            lemma_shared_names(lhs.heading(), rhs.heading(), n);
        }
        lemma_agree_subset(a, b, lhs.attributes(), rks[i]);
        assert(rks.contains(rks[i]));
        lemma_side_of_join(rhs, w, rks[i], a, b);
    } else if rks.contains(k) && covered(lks, shared) {
        lemma_side_of_join(rhs, w, k, a, b);
        let i = choose|i: int| 0 <= i < lks.len() && all_in(#[trigger] lks[i], shared);
        lemma_all_in(lks[i], shared);
        assert forall|n: Name| lks[i].contains(n) implies #[trigger] rhs.attributes().contains(
            n,
        ) by {
            assert(shared.contains(n));
            lemma_shared_names(lhs.heading(), rhs.heading(), n);
        }
        lemma_agree_subset(a, b, rhs.attributes(), lks[i]);
        assert(lks.contains(lks[i]));
        lemma_side_of_join(lhs, w, lks[i], a, b);
    } else {
        let (i, j) = choose|i: int, j: int|
            0 <= i < lks.len() && 0 <= j < rks.len() && k == #[trigger] add_each(lks[i], rks[j]);
        assert forall|n: Name| lks[i].contains(n) implies #[trigger] k.contains(n) by {
            lemma_add_each_contains(lks[i], rks[j], n);
        }
        assert forall|n: Name| rks[j].contains(n) implies #[trigger] k.contains(n) by {
            lemma_add_each_contains(lks[i], rks[j], n);
        }
        lemma_agree_subset(a, b, k, lks[i]);
        lemma_agree_subset(a, b, k, rks[j]);
        assert(lks.contains(lks[i]));
        assert(rks.contains(rks[j]));
        lemma_side_of_join(lhs, w, lks[i], a, b);
        lemma_side_of_join(rhs, w, rks[j], a, b);
    }
    lemma_rows_of_both_sides(lhs.attributes(), rhs.attributes(), a, b);
}

proof fn lemma_narrow(r: Row, names: Seq<Name>, n: Name)
    ensures
        narrow(r, names).dom().contains(n) <==> r.dom().contains(n) && names.contains(n),
        narrow(r, names).dom().contains(n) ==> narrow(r, names)[n] == r[n],
{
}

/// A row over two attribute sets is settled by its two parts.
proof fn lemma_rows_of_both_sides(l: Seq<Name>, r: Seq<Name>, a: Row, b: Row)
    requires
        narrow(a, l) == narrow(b, l),
        narrow(a, r) == narrow(b, r),
        forall|n: Name| #[trigger] a.dom().contains(n) ==> l.contains(n) || r.contains(n),
        forall|n: Name| #[trigger] b.dom().contains(n) ==> l.contains(n) || r.contains(n),
    ensures
        a == b,
{
    assert forall|n: Name| a.dom().contains(n) <==> b.dom().contains(n) by {
        lemma_narrow(a, l, n);
        lemma_narrow(b, l, n);
        lemma_narrow(a, r, n);
        lemma_narrow(b, r, n);
    }
    assert forall|n: Name| a.dom().contains(n) implies a[n] == b[n] by {
        lemma_narrow(a, l, n);
        lemma_narrow(b, l, n);
        lemma_narrow(a, r, n);
        lemma_narrow(b, r, n);
    }
    assert(a =~= b);
}

proof fn lemma_ungrouped_rows(
    input: RelView,
    names: Seq<Name>,
    w: World,
    k: Seq<Name>,
    a: Row,
    b: Row,
)
    requires
        input.well_typed(),
        input.legal_in(w),
        none_in(
            attr_names(lifted_attrs(input.heading(), names, true)),
            attr_names(attrs_without(input.heading(), names)),
        ),
        (RelView::Ungroup { input: Box::new(input), names }).surviving_keys().contains(k),
        (RelView::Ungroup { input: Box::new(input), names }).yields(w, a),
        (RelView::Ungroup { input: Box::new(input), names }).yields(w, b),
        agree_on(a, b, k),
    ensures
        a == b,
    decreases input, 3nat,
{
    let e = RelView::Ungroup { input: Box::new(input), names };
    let h = input.heading();
    let up = lifted_attrs(h, names, true);
    let kept = attrs_without(h, names);
    let f = |x: Seq<Name>| none_in(x, names);
    let (s, ps) = choose|s: Row, picks: Seq<Row>|
        input.yields(w, s) && #[trigger] picked(w, s, names, h, picks) && a == beside(
            strip(s, names),
            picks,
        );
    let (t, qs) = choose|s: Row, picks: Seq<Row>|
        input.yields(w, s) && #[trigger] picked(w, s, names, h, picks) && b == beside(
            strip(s, names),
            picks,
        );
    let ks = input.surviving_keys().filter(f);
    let i = choose|i: int| 0 <= i < e.surviving_keys().len() && e.surviving_keys()[i] == k;
    let k0 = ks[i];
    assert(k == add_each(k0, attr_names(up)));
    assert(ks.contains(k0));
    lemma_filter_contains(input.surviving_keys(), f, k0);
    law_keys_are_attributes(input, k0);
    lemma_all_in(k0, input.attributes());
    lemma_none_in(k0, names);
    lemma_none_in(attr_names(up), attr_names(kept));
    law_rows_fit_heading(input, w, s);
    law_rows_fit_heading(input, w, t);
    assert forall|n: Name| k0.contains(n) implies #[trigger] s[n] == #[trigger] t[n] by {
        lemma_add_each_contains(k0, attr_names(up), n);
        assert(input.attributes().contains(n) && !names.contains(n));
        lemma_within_names(h, names, n);
        assert(attr_names(kept).contains(n));
        assert(s.dom().contains(n) && t.dom().contains(n));
        lemma_beside_names(w, s, strip(s, names), names, h, ps, n);
        lemma_beside_names(w, t, strip(t, names), names, h, qs, n);
        assert(a[n] == b[n]);
    }
    lemma_rows_with_one_key(input, w, k0, s, t);
    assert forall|n: Name| a.dom().contains(n) <==> b.dom().contains(n) by {
        lemma_beside_names(w, s, strip(s, names), names, h, ps, n);
        lemma_beside_names(w, t, strip(t, names), names, h, qs, n);
    }
    assert forall|n: Name| a.dom().contains(n) implies a[n] == b[n] by {
        lemma_beside_names(w, s, strip(s, names), names, h, ps, n);
        lemma_beside_names(w, t, strip(t, names), names, h, qs, n);
        if attr_names(up).contains(n) {
            lemma_add_each_contains(k0, attr_names(up), n);
            assert(k.contains(n));
        }
    }
    assert(a =~= b);
}

/// An expression that the cardinality bound accepts has at most one row.
pub proof fn law_card_le_one_bounds(e: RelView, w: World)
    requires
        e.well_typed(),
        e.legal_in(w),
        e.card_le_one(),
    ensures
        e.at_most_one(w),
    decreases e,
{
    assert forall|a: Row, b: Row| #[trigger] e.yields(w, a) && #[trigger] e.yields(w, b) implies a
        == b by {
        lemma_at_most_one(e, w, a, b);
    }
}

proof fn lemma_at_most_one(e: RelView, w: World, a: Row, b: Row)
    requires
        e.well_typed(),
        e.legal_in(w),
        e.card_le_one(),
        e.yields(w, a),
        e.yields(w, b),
    ensures
        a == b,
    decreases e,
{
    match e {
        RelView::Restrict { input, pred } => {
            if input.card_le_one() {
                lemma_at_most_one(*input, w, a, b);
            } else {
                let attr = pred->attr;
                let k = seq![attr];
                assert forall|n: Name| k.contains(n) implies #[trigger] a[n] == #[trigger] b[n] by {
                    let i = choose|i: int| 0 <= i < k.len() && k[i] == n;
                    assert(n == attr);
                }
                lemma_rows_with_one_key(*input, w, k, a, b);
            }
        },
        RelView::Project { input, keep } => {
            let s = choose|s: Row| input.yields(w, s) && a == #[trigger] narrow(s, keep);
            let t = choose|s: Row| input.yields(w, s) && b == #[trigger] narrow(s, keep);
            lemma_at_most_one(*input, w, s, t);
        },
        RelView::Rename { input, renames } => {
            let s = choose|s: Row| input.yields(w, s) && #[trigger] is_renamed(s, a, renames);
            let t = choose|s: Row| input.yields(w, s) && #[trigger] is_renamed(s, b, renames);
            lemma_at_most_one(*input, w, s, t);
            assert forall|m: Name| a.dom().contains(m) implies b.dom().contains(m) && a[m]
                == b[m] by {
                let n = choose|n: Name| s.dom().contains(n) && #[trigger] renamed(renames, n) == m;
                assert(b[m] == t[n]);
            }
            assert forall|m: Name| b.dom().contains(m) implies a.dom().contains(m) by {
                let n = choose|n: Name| t.dom().contains(n) && #[trigger] renamed(renames, n) == m;
                assert(a[m] == s[n]);
            }
            assert(a =~= b);
        },
        RelView::Extend { input, extends } => {
            let s = choose|s: Row| input.yields(w, s) && a == #[trigger] extended(w, s, extends);
            let t = choose|s: Row| input.yields(w, s) && b == #[trigger] extended(w, s, extends);
            lemma_at_most_one(*input, w, s, t);
        },
        RelView::And { lhs, rhs } => {
            let l = lhs.attributes();
            let r = rhs.attributes();
            lemma_at_most_one(*lhs, w, narrow(a, l), narrow(b, l));
            lemma_at_most_one(*rhs, w, narrow(a, r), narrow(b, r));
            lemma_rows_of_both_sides(l, r, a, b);
        },
        RelView::Semijoin { lhs, .. } => lemma_at_most_one(*lhs, w, a, b),
        RelView::Wrap { input, wraps } => {
            let gone = consumed(wraps);
            let s = choose|s: Row|
                input.yields(w, s) && a == #[trigger] wrapped(w, s, strip(s, gone), wraps);
            let t = choose|s: Row|
                input.yields(w, s) && b == #[trigger] wrapped(w, s, strip(s, gone), wraps);
            lemma_at_most_one(*input, w, s, t);
        },
        RelView::Unwrap { input, names } => {
            let h = input.heading();
            let s = choose|s: Row|
                input.yields(w, s) && a == #[trigger] unwrapped(w, s, strip(s, names), names, h);
            let t = choose|s: Row|
                input.yields(w, s) && b == #[trigger] unwrapped(w, s, strip(s, names), names, h);
            lemma_at_most_one(*input, w, s, t);
        },
        RelView::Group { input, groups } => {
            let gone = consumed(groups);
            let s = choose|s: Row|
                input.yields(w, s) && a == grouped(
                    w,
                    *input,
                    #[trigger] strip(s, gone),
                    gone,
                    groups,
                );
            let t = choose|s: Row|
                input.yields(w, s) && b == grouped(
                    w,
                    *input,
                    #[trigger] strip(s, gone),
                    gone,
                    groups,
                );
            if input.card_le_one() {
                lemma_at_most_one(*input, w, s, t);
            } else {
                law_rows_fit_heading(*input, w, s);
                law_rows_fit_heading(*input, w, t);
                lemma_all_in(input.attributes(), gone);
                assert(strip(s, gone) =~= strip(t, gone)) by {
                    assert forall|n: Name| !strip(s, gone).dom().contains(n) by {
                        if s.dom().contains(n) {
                            assert(input.attributes().contains(n));
                            assert(gone.contains(n));
                        }
                    }
                    assert forall|n: Name| !strip(t, gone).dom().contains(n) by {
                        if t.dom().contains(n) {
                            assert(input.attributes().contains(n));
                            assert(gone.contains(n));
                        }
                    }
                }
            }
        },
        _ => {},
    }
}

/// A projection that needs no `DISTINCT` makes no duplicates: no two rows of
/// its operand are narrowed to the same row.
pub proof fn law_no_distinct_no_duplicates(
    input: RelView,
    keep: Seq<Name>,
    w: World,
    s: Row,
    t: Row,
)
    requires
        input.well_typed(),
        input.legal_in(w),
        !(RelView::Project { input: Box::new(input), keep }).needs_distinct(),
        input.yields(w, s),
        input.yields(w, t),
        narrow(s, keep) == narrow(t, keep),
    ensures
        s == t,
{
    let e = RelView::Project { input: Box::new(input), keep };
    if e.card_le_one() {
        lemma_at_most_one(input, w, s, t);
    } else {
        let k = e.surviving_keys()[0];
        assert(e.surviving_keys().contains(k));
        lemma_filter_contains(input.surviving_keys(), |x: Seq<Name>| all_in(x, keep), k);
        lemma_narrow_keeps_key(input, w, k, keep, s, t);
        lemma_rows_with_one_key(input, w, k, s, t);
    }
}

proof fn lemma_pinned_rows(
    e: RelView,
    w: World,
    slot: int,
    h: HeadingView,
    n: int,
    only: Row,
    r: Row,
)
    requires
        0 <= n <= h.len(),
        forall|c: int|
            0 <= c < h.len() ==> (w.value)(
                RestrictValueView::SlotCell { slot, cell: c },
            ) == only[#[trigger] h[c].0],
    ensures
        pinned(e, slot, h, n).yields(w, r) <==> e.yields(w, r) && forall|c: int|
            0 <= c < n ==> r[#[trigger] h[c].0] == only[h[c].0],
    decreases n,
{
    if n > 0 {
        lemma_pinned_rows(e, w, slot, h, n - 1, only, r);
        assert((w.value)(RestrictValueView::SlotCell { slot, cell: n - 1 }) == only[h[n - 1].0]);
    }
}

/// Distinct names of which as many are shared as there are, are all shared.
proof fn lemma_all_shared(a: HeadingView, b: HeadingView, n: Name)
    requires
        attr_names(a).no_duplicates(),
        attr_names(b).no_duplicates(),
        shared_of(a, b).len() == b.len(),
        attr_names(b).contains(n),
    ensures
        shared_of(a, b).contains(n),
{
    let shared = shared_of(a, b);
    lemma_within_distinct(a, attr_names(b));
    shared.unique_seq_to_set();
    attr_names(b).unique_seq_to_set();
    assert forall|m: Name| shared.to_set().contains(m) implies attr_names(b).to_set().contains(
        m,
    ) by {
        lemma_shared_names(a, b, m);
    }
    assert(shared.to_set().subset_of(attr_names(b).to_set()));
    vstd::set_lib::lemma_subset_equality(shared.to_set(), attr_names(b).to_set());
    assert(attr_names(b).to_set().contains(n));
    assert(shared.to_set().contains(n));
}

proof fn lemma_within_distinct(a: HeadingView, names: Seq<Name>)
    requires
        attr_names(a).no_duplicates(),
    ensures
        attr_names(attrs_within(a, names)).no_duplicates(),
    decreases a.len(),
{
    reveal_with_fuel(Seq::filter, 1);
    if a.len() > 0 {
        let t = a.drop_last();
        assert(attr_names(a) =~= attr_names(t).push(a.last().0));
        assert(attr_names(t).no_duplicates()) by {
            assert forall|i: int, j: int|
                0 <= i < attr_names(t).len() && 0 <= j < attr_names(t).len() && i
                    != j implies attr_names(t)[i] != attr_names(t)[j] by {
                assert(attr_names(a)[i] != attr_names(a)[j]);
            }
        }
        lemma_within_distinct(t, names);
        lemma_within_names(t, names, a.last().0);
        let inner = attrs_within(t, names);
        assert(attr_names(inner.push(a.last())) =~= attr_names(inner).push(a.last().0));
        assert(!attr_names(t).contains(a.last().0)) by {
            if attr_names(t).contains(a.last().0) {
                let i = choose|i: int|
                    0 <= i < attr_names(t).len() && attr_names(t)[i] == a.last().0;
                assert(attr_names(a)[i] == attr_names(a)[a.len() - 1]);
            }
        }
        if names.contains(a.last().0) {
            let all = attr_names(inner).push(a.last().0);
            assert(all.no_duplicates()) by {
                assert forall|i: int, j: int|
                    0 <= i < all.len() && 0 <= j < all.len() && i != j implies all[i]
                    != all[j] by {
                    if i < attr_names(inner).len() {
                        assert(attr_names(inner).contains(all[i]));
                    }
                    if j < attr_names(inner).len() {
                        assert(attr_names(inner).contains(all[j]));
                    }
                }
            }
        }
    }
}

proof fn lemma_narrowed_row(e: RelView, w: World, s: Row, r: Row)
    requires
        e is Project,
        (*e->Project_input).yields(w, s),
        r == narrow(s, e->keep),
    ensures
        e.yields(w, r),
{
    let input = *e->Project_input;
    let keep = e->keep;
    assert(exists|x: Row| input.yields(w, x) && r == #[trigger] narrow(x, keep));
    assert(e.yields(w, r) == (exists|x: Row| input.yields(w, x) && r == #[trigger] narrow(x, keep)));
}

/// When the parameter has exactly one row, the rewriting of a semijoin against
/// it yields the same rows, and it ships no relation any more.
pub proof fn law_card1_rewriting_is_exact(e: RelView, w: World, only: Row, r: Row)
    requires
        e.card1_applies(),
        attr_names((*e.below_projection()->Semijoin_lhs).heading()).no_duplicates(),
        attr_names((*e.below_projection()->Semijoin_rhs).heading()).no_duplicates(),
        forall|t: Row| #[trigger] (w.slot)(e.card1_slot(), t) <==> t == only,
        forall|c: int|
            0 <= c < (*e.below_projection()->Semijoin_rhs).heading().len() ==> (w.value)(
                RestrictValueView::SlotCell { slot: e.card1_slot(), cell: c },
            ) == only[(#[trigger] (*e.below_projection()->Semijoin_rhs).heading()[c]).0],
    ensures
        e.card1_rewritten().yields(w, r) <==> e.yields(w, r),
{
    let core = e.below_projection();
    let lhs = *core->Semijoin_lhs;
    let rhs = *core->Semijoin_rhs;
    let h = rhs.heading();
    let slot = e.card1_slot();
    let body = pinned(lhs, slot, h, h.len() as int);
    assert forall|x: Row| body.yields(w, x) <==> core.yields(w, x) by {
        lemma_pinned_rows(lhs, w, slot, h, h.len() as int, only, x);
        let shared = shared_of(lhs.heading(), h);
        if core.yields(w, x) {
            let s = choose|s: Row| rhs.yields(w, s) && #[trigger] agree_on(x, s, shared);
            assert((w.slot)(slot, s));
            assert forall|c: int| 0 <= c < h.len() implies x[#[trigger] h[c].0] == only[h[c].0] by {
                assert(attr_names(h)[c] == h[c].0);
                assert(attr_names(h).contains(h[c].0));
                lemma_all_shared(lhs.heading(), h, h[c].0);
                assert(x[h[c].0] == s[h[c].0]);
            }
        }
        if body.yields(w, x) {
            assert forall|n: Name| shared.contains(n) implies #[trigger] x[n]
                == #[trigger] only[n] by {
                lemma_shared_names(lhs.heading(), h, n);
                lemma_names_contains(h, n);
                let c = choose|c: int| 0 <= c < h.len() && #[trigger] h[c].0 == n;
                assert(x[h[c].0] == only[h[c].0]);
            }
            assert(agree_on(x, only, shared));
            assert((w.slot)(slot, only));
            assert(rhs.yields(w, only));
        }
    }
    match e {
        RelView::Project { input, keep } => {
            assert(e.card1_rewritten() == RelView::Project { input: Box::new(body), keep });
            if e.yields(w, r) {
                let s = choose|s: Row| input.yields(w, s) && r == #[trigger] narrow(s, keep);
                assert(body.yields(w, s));
                lemma_narrowed_row(e.card1_rewritten(), w, s, r);
            }
            if e.card1_rewritten().yields(w, r) {
                let s = choose|s: Row| body.yields(w, s) && r == #[trigger] narrow(s, keep);
                assert(core.yields(w, s));
                assert(e.yields(w, r));
            }
        },
        _ => {},
    }
}

proof fn lemma_pinned_keeps_shape(e: RelView, slot: int, h: HeadingView, n: int)
    ensures
        pinned(e, slot, h, n).heading() == e.heading(),
        pinned(e, slot, h, n).origin() == e.origin(),
        pinned(e, slot, h, n).rel_param_count() == e.rel_param_count(),
        pinned(e, slot, h, n).surviving_keys() == e.surviving_keys(),
    decreases n,
{
    if n > 0 {
        lemma_pinned_keeps_shape(e, slot, h, n - 1);
    }
}

/// The rewriting of a semijoin keeps the heading and the keys, and holds no
/// relation parameter.
pub proof fn law_card1_rewriting_keeps_shape(e: RelView)
    requires
        e.card1_applies(),
    ensures
        e.card1_rewritten().heading() == e.heading(),
        e.card1_rewritten().surviving_keys() == e.surviving_keys(),
        e.card1_rewritten().rel_param_count() == 0,
        e.card1_rewritten().origin() == (*e.below_projection()->Semijoin_lhs).origin(),
{
    let core = e.below_projection();
    let lhs = *core->Semijoin_lhs;
    let h = (*core->Semijoin_rhs).heading();
    lemma_pinned_keeps_shape(lhs, e.card1_slot(), h, h.len() as int);
    let body = pinned(lhs, e.card1_slot(), h, h.len() as int);
    assert(core.heading() == lhs.heading());
    assert(core.surviving_keys() == lhs.surviving_keys());
    assert((*core->Semijoin_rhs).rel_param_count() == 1);
    assert(core.rel_param_count() == lhs.rel_param_count() + 1);
    match e {
        RelView::Project { input, keep } => {
            assert(e.card1_rewritten() == RelView::Project { input: Box::new(body), keep });
            assert(e.rel_param_count() == core.rel_param_count());
        },
        _ => {
            assert(e.card1_rewritten() == body);
        },
    }
}

/// Whether some leaf is a public relvar (`public`) or some leaf is not.
pub open spec fn has_leaf(e: RelView, public: bool) -> bool
    decreases e,
{
    match e {
        RelView::RelvarRef { .. } => public,
        RelView::Restrict { input, .. } => has_leaf(*input, public),
        RelView::Project { input, .. } => has_leaf(*input, public),
        RelView::Rename { input, .. } => has_leaf(*input, public),
        RelView::Extend { input, .. } => has_leaf(*input, public),
        RelView::And { lhs, rhs } => has_leaf(*lhs, public) || has_leaf(*rhs, public),
        RelView::Or { lhs, rhs } => has_leaf(*lhs, public) || has_leaf(*rhs, public),
        RelView::Minus { lhs, rhs } => has_leaf(*lhs, public) || has_leaf(*rhs, public),
        RelView::Otherwise { primary, fallback } => {
            has_leaf(*primary, public) || has_leaf(*fallback, public)
        },
        RelView::Semijoin { lhs, rhs, .. } => has_leaf(*lhs, public) || has_leaf(*rhs, public),
        RelView::TClose { input } => has_leaf(*input, public),
        RelView::Wrap { input, .. } => has_leaf(*input, public),
        RelView::Unwrap { input, .. } => has_leaf(*input, public),
        RelView::Group { input, .. } => has_leaf(*input, public),
        RelView::Ungroup { input, .. } => has_leaf(*input, public),
        RelView::MaterializedRelvar { .. } => !public,
        RelView::RelParam { .. } => !public,
    }
}

/// The origin says which leaves there are: only public relvars, none, or both
/// kinds.
pub proof fn law_origin_tells_leaves(e: RelView)
    ensures
        e.origin() == (if !has_leaf(e, false) {
            StorageOrigin::RelvarRooted
        } else if !has_leaf(e, true) {
            StorageOrigin::Materialized
        } else {
            StorageOrigin::Mixed
        }),
        has_leaf(e, true) || has_leaf(e, false),
    decreases e,
{
    match e {
        RelView::Restrict { input, .. } => law_origin_tells_leaves(*input),
        RelView::Project { input, .. } => law_origin_tells_leaves(*input),
        RelView::Rename { input, .. } => law_origin_tells_leaves(*input),
        RelView::Extend { input, .. } => law_origin_tells_leaves(*input),
        RelView::And { lhs, rhs } => {
            law_origin_tells_leaves(*lhs);
            law_origin_tells_leaves(*rhs);
        },
        RelView::Or { lhs, rhs } => {
            law_origin_tells_leaves(*lhs);
            law_origin_tells_leaves(*rhs);
        },
        RelView::Minus { lhs, rhs } => {
            law_origin_tells_leaves(*lhs);
            law_origin_tells_leaves(*rhs);
        },
        RelView::Otherwise { primary, fallback } => {
            law_origin_tells_leaves(*primary);
            law_origin_tells_leaves(*fallback);
        },
        RelView::Semijoin { lhs, rhs, .. } => {
            law_origin_tells_leaves(*lhs);
            law_origin_tells_leaves(*rhs);
        },
        RelView::TClose { input } => law_origin_tells_leaves(*input),
        RelView::Wrap { input, .. } => law_origin_tells_leaves(*input),
        RelView::Unwrap { input, .. } => law_origin_tells_leaves(*input),
        RelView::Group { input, .. } => law_origin_tells_leaves(*input),
        RelView::Ungroup { input, .. } => law_origin_tells_leaves(*input),
        _ => {},
    }
}

/// An expression without a public relvar reads no table.
pub proof fn law_materialized_reads_no_table(e: RelView, table: Name)
    requires
        e.origin() == StorageOrigin::Materialized,
    ensures
        !e.references_table(table),
    decreases e,
{
    match e {
        RelView::Restrict { input, .. } => law_materialized_reads_no_table(*input, table),
        RelView::Project { input, .. } => law_materialized_reads_no_table(*input, table),
        RelView::Rename { input, .. } => law_materialized_reads_no_table(*input, table),
        RelView::Extend { input, .. } => law_materialized_reads_no_table(*input, table),
        RelView::And { lhs, rhs } => {
            law_materialized_reads_no_table(*lhs, table);
            law_materialized_reads_no_table(*rhs, table);
        },
        RelView::Or { lhs, rhs } => {
            law_materialized_reads_no_table(*lhs, table);
            law_materialized_reads_no_table(*rhs, table);
        },
        RelView::Minus { lhs, rhs } => {
            law_materialized_reads_no_table(*lhs, table);
            law_materialized_reads_no_table(*rhs, table);
        },
        RelView::Otherwise { primary, fallback } => {
            law_materialized_reads_no_table(*primary, table);
            law_materialized_reads_no_table(*fallback, table);
        },
        RelView::Semijoin { lhs, rhs, .. } => {
            law_materialized_reads_no_table(*lhs, table);
            law_materialized_reads_no_table(*rhs, table);
        },
        RelView::TClose { input } => law_materialized_reads_no_table(*input, table),
        RelView::Wrap { input, .. } => law_materialized_reads_no_table(*input, table),
        RelView::Unwrap { input, .. } => law_materialized_reads_no_table(*input, table),
        RelView::Group { input, .. } => law_materialized_reads_no_table(*input, table),
        RelView::Ungroup { input, .. } => law_materialized_reads_no_table(*input, table),
        _ => {},
    }
}

/// Negation is the logical complement and its own inverse; swapping operands
/// is its own inverse too.
pub proof fn law_comparison_operators(op: CmpOp, a: int, b: int)
    ensures
        op.negated().holds(a, b) == !op.holds(a, b),
        op.flipped().holds(b, a) == op.holds(a, b),
        op.negated().negated() == op,
        op.flipped().flipped() == op,
        op.negated().flipped() == op.flipped().negated(),
{
}

} // verus!
