//! What gathers attributes and what expands them again undo each other.

use crate::heading_laws::{
    law_canonical_keeps_attributes, law_canonical_rises, law_name_order, lemma_rising_is_unique,
};
use crate::rel_analysis::{components_of, consumed, gathered, gathered_attrs, lifted_attrs};
use crate::rel_expr::RelView;
use crate::text::Name;
use crate::types::{
    attr_names, attrs_without, canonical, lookup_attr, names_distinct, names_rise, HeadingView,
    TypeView,
};
use vstd::prelude::*;

verus! {

/// Whether pairs of a new name and components can gather attributes of a heading:
/// the components are distinct attributes of it, and the new names are distinct
/// and differ from every attribute left over.
pub open spec fn gathers(h: HeadingView, pairs: Seq<(Name, HeadingView)>) -> bool {
    &&& consumed(pairs).no_duplicates()
    &&& forall|i: int, j: int|
        0 <= i < pairs.len() && 0 <= j < pairs[i].1.len() ==> h.contains(#[trigger] pairs[i].1[j])
    &&& forall|i: int, j: int|
        0 <= i < j < pairs.len() ==> (#[trigger] pairs[i]).0 != (#[trigger] pairs[j]).0
    &&& forall|i: int|
        0 <= i < pairs.len() ==> !attr_names(attrs_without(h, consumed(pairs))).contains(
            (#[trigger] pairs[i]).0,
        )
}

/// The new names of pairs.
pub open spec fn new_names(pairs: Seq<(Name, HeadingView)>) -> Seq<Name> {
    Seq::new(pairs.len(), |i: int| pairs[i].0)
}

/// The components of all pairs.
spec fn components(pairs: Seq<(Name, HeadingView)>) -> HeadingView
    decreases pairs.len(),
{
    if pairs.len() == 0 {
        Seq::empty()
    } else {
        components(pairs.drop_last()) + pairs.last().1
    }
}

proof fn lemma_without(s: HeadingView, names: Seq<Name>)
    ensures
        forall|a: (Name, TypeView)| #[trigger]
            attrs_without(s, names).contains(a) <==> s.contains(a) && !names.contains(a.0),
        names_distinct(s) ==> names_distinct(attrs_without(s, names)),
    decreases s.len(),
{
    reveal(Seq::filter);
    let out = attrs_without(s, names);
    if s.len() > 0 {
        let (t, last) = (s.drop_last(), s.last());
        lemma_without(t, names);
        let front = attrs_without(t, names);
        assert(s =~= t.push(last));
        assert forall|a: (Name, TypeView)| #[trigger] out.contains(a) <==> s.contains(a)
            && !names.contains(a.0) by {
            lemma_push_contains(t, last, a);
            lemma_push_contains(front, last, a);
        }
        if names_distinct(s) {
            assert forall|i: int, j: int| 0 <= i < j < t.len() implies #[trigger] t[i].0
                != #[trigger] t[j].0 by {
                assert(s[i].0 != s[j].0);
            }
            assert forall|i: int, j: int| 0 <= i < j < out.len() implies #[trigger] out[i].0
                != #[trigger] out[j].0 by {
                assert(out[i] == front[i]);
                if j < front.len() {
                    assert(front[i].0 != front[j].0);
                } else {
                    assert(front.contains(front[i]));
                    let k = choose|k: int| 0 <= k < t.len() && t[k] == front[i];
                    assert(s[k].0 != s[s.len() - 1].0);
                }
            }
        }
    }
}

proof fn lemma_push_contains(s: HeadingView, x: (Name, TypeView), a: (Name, TypeView))
    ensures
        s.push(x).contains(a) <==> s.contains(a) || a == x,
{
    let t = s.push(x);
    if s.contains(a) {
        let i = choose|i: int| 0 <= i < s.len() && s[i] == a;
        assert(t[i] == a);
    }
    assert(t[s.len() as int] == x);
    if t.contains(a) && a != x {
        let i = choose|i: int| 0 <= i < t.len() && t[i] == a;
        assert(s[i] == a);
    }
}

/// The type of an attribute whose name stands once.
proof fn lemma_lookup(h: HeadingView, i: int)
    requires
        names_distinct(h),
        0 <= i < h.len(),
    ensures
        lookup_attr(h, h[i].0) == Some(h[i].1),
    decreases h.len(),
{
    if i > 0 {
        let t = h.drop_first();
        assert(h[0].0 != h[i].0);
        assert forall|j: int, k: int| 0 <= j < k < t.len() implies #[trigger] t[j].0
            != #[trigger] t[k].0 by {
            assert(h[j + 1].0 != h[k + 1].0);
        }
        lemma_lookup(t, i - 1);
    }
}

proof fn lemma_component_names(pairs: Seq<(Name, HeadingView)>)
    ensures
        attr_names(components(pairs)) == consumed(pairs),
    decreases pairs.len(),
{
    if pairs.len() > 0 {
        lemma_component_names(pairs.drop_last());
    }
    assert(attr_names(components(pairs)) =~= consumed(pairs));
}

proof fn lemma_components(pairs: Seq<(Name, HeadingView)>, h: HeadingView)
    requires
        forall|i: int, j: int|
            0 <= i < pairs.len() && 0 <= j < pairs[i].1.len() ==> h.contains(
                #[trigger] pairs[i].1[j],
            ),
    ensures
        forall|k: int|
            0 <= k < components(pairs).len() ==> h.contains(#[trigger] components(pairs)[k]),
    decreases pairs.len(),
{
    if pairs.len() > 0 {
        let front = pairs.drop_last();
        assert forall|i: int, j: int|
            0 <= i < front.len() && 0 <= j < front[i].1.len() implies h.contains(
            #[trigger] front[i].1[j],
        ) by {
            assert(h.contains(pairs[i].1[j]));
        }
        lemma_components(front, h);
        let all = components(pairs);
        assert forall|k: int| 0 <= k < all.len() implies h.contains(#[trigger] all[k]) by {
            let n = components(front).len();
            if k < n {
                assert(all[k] == components(front)[k]);
            } else {
                assert(all[k] == pairs[pairs.len() - 1].1[k - n]);
            }
        }
    }
}

/// Expanding the new names gives the components.
proof fn lemma_lifted(h: HeadingView, pairs: Seq<(Name, HeadingView)>, relation: bool)
    requires
        forall|i: int|
            0 <= i < pairs.len() ==> lookup_attr(h, (#[trigger] pairs[i]).0) == Some(
                gathered(pairs[i].1, relation),
            ),
    ensures
        lifted_attrs(h, new_names(pairs), relation) == components(pairs),
    decreases pairs.len(),
{
    let names = new_names(pairs);
    if pairs.len() > 0 {
        let front = pairs.drop_last();
        assert forall|i: int| 0 <= i < front.len() implies lookup_attr(
            h,
            (#[trigger] front[i]).0,
        ) == Some(gathered(front[i].1, relation)) by {
            assert(front[i] == pairs[i]);
        }
        lemma_lifted(h, front, relation);
        assert(names.drop_last() =~= new_names(front));
        let last = pairs[pairs.len() - 1];
        assert(names.last() == last.0);
        assert(components_of(lookup_attr(h, last.0), relation) == last.1);
    }
}

/// Gathering attributes and then expanding the new names gives the heading back.
proof fn lemma_expanded(h: HeadingView, pairs: Seq<(Name, HeadingView)>, relation: bool)
    requires
        names_rise(h),
        gathers(h, pairs),
    ensures
        ({
            let made = canonical(
                attrs_without(h, consumed(pairs)) + gathered_attrs(pairs, relation),
            );
            let names = new_names(pairs);
            canonical(attrs_without(made, names) + lifted_attrs(made, names, relation)) == h
        }),
{
    broadcast use vstd::seq_lib::group_to_multiset_ensures;

    let gone = consumed(pairs);
    let rest = attrs_without(h, gone);
    let added = gathered_attrs(pairs, relation);
    let made = canonical(rest + added);
    let names = new_names(pairs);
    assert(names_distinct(h)) by {
        assert forall|i: int, j: int| 0 <= i < j < h.len() implies #[trigger] h[i].0
            != #[trigger] h[j].0 by {
            law_name_order(h[i].0, h[j].0, h[i].0);
        }
    }
    lemma_without(h, gone);
    assert forall|i: int, j: int| 0 <= i < j < (rest + added).len() implies #[trigger] (rest
        + added)[i].0 != #[trigger] (rest + added)[j].0 by {
        let n = rest.len();
        if j < n {
            assert(rest[i].0 != rest[j].0);
        } else if i < n {
            assert(attr_names(rest)[i] == rest[i].0);
            assert(added[j - n].0 == pairs[j - n].0);
        } else {
            assert(pairs[i - n].0 != pairs[j - n].0);
        }
    }
    law_canonical_rises(rest + added);
    law_canonical_keeps_attributes(rest + added);
    assert forall|a: (Name, TypeView)| #[trigger] made.contains(a) <==> rest.contains(a)
        || added.contains(a) by {
        assert(made.contains(a) <==> made.to_multiset().count(a) > 0);
        assert((rest + added).contains(a) <==> (rest + added).to_multiset().count(a) > 0);
        lemma_concat_contains(rest, added, a);
    }
    assert(names_distinct(made)) by {
        assert forall|i: int, j: int| 0 <= i < j < made.len() implies #[trigger] made[i].0
            != #[trigger] made[j].0 by {
            law_name_order(made[i].0, made[j].0, made[i].0);
        }
    }
    assert forall|i: int| 0 <= i < pairs.len() implies lookup_attr(
        made,
        (#[trigger] pairs[i]).0,
    ) == Some(gathered(pairs[i].1, relation)) by {
        let a = (pairs[i].0, gathered(pairs[i].1, relation));
        assert(added[i] == a);
        assert(added.contains(a));
        assert(made.contains(a));
        let k = choose|k: int| 0 <= k < made.len() && made[k] == a;
        lemma_lookup(made, k);
    }
    lemma_lifted(made, pairs, relation);
    lemma_component_names(pairs);
    lemma_components(pairs, h);
    lemma_without(made, names);
    let kept = attrs_without(made, names);
    let all = components(pairs);
    assert forall|a: (Name, TypeView)| #[trigger] kept.contains(a) <==> rest.contains(a) by {
        if rest.contains(a) {
            let i = choose|i: int| 0 <= i < rest.len() && rest[i] == a;
            assert(attr_names(rest)[i] == a.0);
            assert(attr_names(rest).contains(a.0));
            if names.contains(a.0) {
                let j = choose|j: int| 0 <= j < names.len() && names[j] == a.0;
                assert(pairs[j].0 == a.0);
            }
        } else if added.contains(a) {
            let i = choose|i: int| 0 <= i < added.len() && added[i] == a;
            assert(names[i] == a.0);
        }
    }
    let whole = kept + all;
    assert forall|a: (Name, TypeView)| #[trigger] whole.contains(a) <==> h.contains(a) by {
        lemma_concat_contains(kept, all, a);
        if h.contains(a) && gone.contains(a.0) {
            let k = choose|k: int| 0 <= k < gone.len() && gone[k] == a.0;
            assert(attr_names(all)[k] == a.0);
            assert(h.contains(all[k]));
            let i = choose|i: int| 0 <= i < h.len() && h[i] == a;
            let j = choose|j: int| 0 <= j < h.len() && h[j] == all[k];
            assert(i == j);
            assert(all.contains(a));
        }
    }
    assert forall|i: int, j: int| 0 <= i < j < whole.len() implies #[trigger] whole[i].0
        != #[trigger] whole[j].0 by {
        let n = kept.len();
        if j < n {
            assert(kept[i].0 != kept[j].0);
        } else {
            assert(gone[j - n] == attr_names(all)[j - n]);
            if i < n {
                assert(kept.contains(kept[i]));
                assert(rest.contains(kept[i]));
                assert(gone.contains(all[j - n].0));
            } else {
                assert(gone[i - n] == attr_names(all)[i - n]);
            }
        }
    }
    law_canonical_rises(whole);
    law_canonical_keeps_attributes(whole);
    let back = canonical(whole);
    assert forall|a: (Name, TypeView)| back.contains(a) <==> h.contains(a) by {
        assert(back.contains(a) <==> back.to_multiset().count(a) > 0);
        assert(whole.contains(a) <==> whole.to_multiset().count(a) > 0);
    }
    lemma_rising_is_unique(back, h);
}

proof fn lemma_concat_contains(s: HeadingView, t: HeadingView, a: (Name, TypeView))
    ensures
        (s + t).contains(a) <==> s.contains(a) || t.contains(a),
{
    if s.contains(a) {
        let i = choose|i: int| 0 <= i < s.len() && s[i] == a;
        assert((s + t)[i] == a);
    }
    if t.contains(a) {
        let i = choose|i: int| 0 <= i < t.len() && t[i] == a;
        assert((s + t)[s.len() + i] == a);
    }
    if (s + t).contains(a) {
        let i = choose|i: int| 0 <= i < (s + t).len() && (s + t)[i] == a;
        if i < s.len() {
            assert(s[i] == a);
        } else {
            assert(t[i - s.len()] == a);
        }
    }
}

/// Unwrapping what was wrapped gives the operand's heading back.
pub proof fn law_unwrap_undoes_wrap(input: RelView, wraps: Seq<(Name, HeadingView)>)
    requires
        names_rise(input.heading()),
        gathers(input.heading(), wraps),
    ensures
        ({
            let wrapped = RelView::Wrap { input: Box::new(input), wraps };
            let names = new_names(wraps);
            (RelView::Unwrap { input: Box::new(wrapped), names }).heading() == input.heading()
        }),
{
    lemma_expanded(input.heading(), wraps, false);
    reveal_with_fuel(RelView::heading, 3);
}

/// Ungrouping what was grouped gives the operand's heading back.
pub proof fn law_ungroup_undoes_group(input: RelView, groups: Seq<(Name, HeadingView)>)
    requires
        names_rise(input.heading()),
        gathers(input.heading(), groups),
    ensures
        ({
            let grouped = RelView::Group { input: Box::new(input), groups };
            let names = new_names(groups);
            (RelView::Ungroup { input: Box::new(grouped), names }).heading() == input.heading()
        }),
{
    lemma_expanded(input.heading(), groups, true);
    reveal_with_fuel(RelView::heading, 3);
}

} // verus!
