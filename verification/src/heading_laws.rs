//! What canonical order promises of headings.

use crate::text::{before, Name};
use crate::types::{canonical, insert_attr, names_distinct, names_rise, HeadingView, TypeView};
use vstd::prelude::*;

verus! {

/// Code-point order is a strict total order on names.
pub proof fn law_name_order(a: Name, b: Name, c: Name)
    ensures
        !before(a, a),
        before(a, b) && before(b, c) ==> before(a, c),
        before(a, b) || before(b, a) || a == b,
    decreases a.len(),
{
    if a.len() > 0 {
        law_name_order(a.drop_first(), a.drop_first(), a.drop_first());
    }
    if a.len() > 0 && b.len() > 0 {
        let (x, y) = (a.drop_first(), b.drop_first());
        law_name_order(x, y, if c.len() > 0 { c.drop_first() } else { c });
        if a[0] == b[0] && x == y {
            assert(a =~= b) by {
                assert forall|i: int| 0 <= i < a.len() implies a[i] == b[i] by {
                    if i > 0 {
                        assert(x[i - 1] == y[i - 1]);
                    }
                }
            }
        }
    } else if a.len() == 0 && b.len() == 0 {
        assert(a =~= b);
    }
}

proof fn lemma_insert_len(s: HeadingView, a: (Name, TypeView))
    ensures
        insert_attr(s, a).len() == s.len() + 1,
        insert_attr(s, a).to_multiset() =~= s.to_multiset().insert(a),
    decreases s.len(),
{
    broadcast use vstd::seq_lib::group_to_multiset_ensures;

    if s.len() > 0 && before(a.0, s.last().0) {
        lemma_insert_len(s.drop_last(), a);
        assert(s =~= s.drop_last().push(s.last()));
    }
}

/// `h` with names that never fall.
spec fn names_ordered(h: HeadingView) -> bool {
    forall|i: int, j: int| 0 <= i < j < h.len() ==> !before(#[trigger] h[j].0, #[trigger] h[i].0)
}

proof fn lemma_insert_ordered(s: HeadingView, a: (Name, TypeView))
    requires
        names_ordered(s),
    ensures
        names_ordered(insert_attr(s, a)),
        forall|i: int|
            0 <= i < insert_attr(s, a).len() ==> insert_attr(s, a)[i] == a || s.contains(
                #[trigger] insert_attr(s, a)[i],
            ),
    decreases s.len(),
{
    let r = insert_attr(s, a);
    lemma_insert_len(s, a);
    if s.len() > 0 && before(a.0, s.last().0) {
        let t = s.drop_last();
        assert forall|i: int, j: int| 0 <= i < j < t.len() implies !before(
            #[trigger] t[j].0,
            #[trigger] t[i].0,
        ) by {
            assert(!before(s[j].0, s[i].0));
        }
        lemma_insert_ordered(t, a);
        let inner = insert_attr(t, a);
        assert forall|i: int| 0 <= i < r.len() implies r[i] == a || s.contains(
            #[trigger] r[i],
        ) by {
            if i < inner.len() {
                assert(r[i] == inner[i]);
                if inner[i] != a {
                    let k = choose|k: int| 0 <= k < t.len() && t[k] == inner[i];
                    assert(s[k] == r[i]);
                }
            } else {
                assert(s[s.len() - 1] == r[i]);
            }
        }
        assert forall|i: int, j: int| 0 <= i < j < r.len() implies !before(
            #[trigger] r[j].0,
            #[trigger] r[i].0,
        ) by {
            if j < inner.len() {
                assert(!before(inner[j].0, inner[i].0));
            } else {
                assert(r[j] == s.last());
                assert(r[i] == inner[i]);
                if inner[i] == a {
                    law_name_order(a.0, s.last().0, a.0);
                } else {
                    let k = choose|k: int| 0 <= k < t.len() && t[k] == inner[i];
                    assert(!before(s[s.len() - 1].0, s[k].0));
                }
            }
        }
    } else {
        assert forall|i: int| 0 <= i < r.len() implies r[i] == a || s.contains(
            #[trigger] r[i],
        ) by {
            if i < s.len() {
                assert(s[i] == r[i]);
            }
        }
        assert forall|i: int, j: int| 0 <= i < j < r.len() implies !before(
            #[trigger] r[j].0,
            #[trigger] r[i].0,
        ) by {
            if j < s.len() {
                assert(!before(s[j].0, s[i].0));
            } else if i < s.len() - 1 {
                assert(!before(s[s.len() - 1].0, s[i].0));
                law_name_order(a.0, s[i].0, s[s.len() - 1].0);
                law_name_order(s[i].0, s[s.len() - 1].0, s[i].0);
            }
        }
    }
}

proof fn lemma_canonical_ordered(s: HeadingView)
    ensures
        names_ordered(canonical(s)),
        canonical(s).to_multiset() =~= s.to_multiset(),
        canonical(s).len() == s.len(),
    decreases s.len(),
{
    broadcast use vstd::seq_lib::group_to_multiset_ensures;

    if s.len() > 0 {
        let t = s.drop_last();
        lemma_canonical_ordered(t);
        lemma_insert_ordered(canonical(t), s.last());
        lemma_insert_len(canonical(t), s.last());
        assert(s =~= t.push(s.last()));
    } else {
        assert(s =~= Seq::empty());
    }
}

/// Canonical order rearranges: it drops and adds no attribute.
pub proof fn law_canonical_keeps_attributes(s: HeadingView)
    ensures
        canonical(s).len() == s.len(),
        canonical(s).to_multiset() == s.to_multiset(),
{
    lemma_canonical_ordered(s);
}

/// Attributes of distinct names come out in strictly rising name order.
pub proof fn law_canonical_rises(s: HeadingView)
    requires
        names_distinct(s),
    ensures
        names_rise(canonical(s)),
{
    lemma_canonical_ordered(s);
    lemma_canonical_distinct(s);
    let r = canonical(s);
    assert forall|i: int, j: int| 0 <= i < j < r.len() implies before(
        #[trigger] r[i].0,
        #[trigger] r[j].0,
    ) by {
        law_name_order(r[i].0, r[j].0, r[i].0);
    }
}

proof fn lemma_insert_distinct(s: HeadingView, a: (Name, TypeView))
    requires
        names_distinct(s),
        forall|i: int| 0 <= i < s.len() ==> (#[trigger] s[i]).0 != a.0,
    ensures
        names_distinct(insert_attr(s, a)),
        forall|i: int|
            0 <= i < insert_attr(s, a).len() ==> (#[trigger] insert_attr(s, a)[i]) == a
                || s.contains(insert_attr(s, a)[i]),
    decreases s.len(),
{
    let r = insert_attr(s, a);
    if s.len() > 0 && before(a.0, s.last().0) {
        let t = s.drop_last();
        assert forall|i: int| 0 <= i < t.len() implies (#[trigger] t[i]).0 != a.0 by {
            assert(t[i] == s[i]);
        }
        assert forall|i: int, j: int| 0 <= i < j < t.len() implies #[trigger] t[i].0
            != #[trigger] t[j].0 by {
            assert(s[i].0 != s[j].0);
        }
        lemma_insert_distinct(t, a);
        let inner = insert_attr(t, a);
        assert forall|i: int| 0 <= i < r.len() implies (#[trigger] r[i]) == a || s.contains(
            r[i],
        ) by {
            if i < inner.len() {
                assert(r[i] == inner[i]);
                if inner[i] != a {
                    let k = choose|k: int| 0 <= k < t.len() && t[k] == inner[i];
                    assert(s[k] == r[i]);
                }
            } else {
                assert(s[s.len() - 1] == r[i]);
            }
        }
        assert forall|i: int, j: int| 0 <= i < j < r.len() implies #[trigger] r[i].0
            != #[trigger] r[j].0 by {
            if j < inner.len() {
                assert(inner[i].0 != inner[j].0);
            } else {
                assert(r[j] == s[s.len() - 1]);
                assert(r[i] == inner[i]);
                if inner[i] != a {
                    let k = choose|k: int| 0 <= k < t.len() && t[k] == inner[i];
                    assert(s[k].0 != s[s.len() - 1].0);
                }
            }
        }
    } else {
        assert forall|i: int| 0 <= i < r.len() implies (#[trigger] r[i]) == a || s.contains(
            r[i],
        ) by {
            if i < s.len() {
                assert(s[i] == r[i]);
            }
        }
        assert forall|i: int, j: int| 0 <= i < j < r.len() implies #[trigger] r[i].0
            != #[trigger] r[j].0 by {
            if j < s.len() {
                assert(s[i].0 != s[j].0);
            } else {
                assert(s[i].0 != a.0);
            }
        }
    }
}

proof fn lemma_canonical_distinct(s: HeadingView)
    requires
        names_distinct(s),
    ensures
        names_distinct(canonical(s)),
        forall|i: int|
            0 <= i < canonical(s).len() ==> s.contains(#[trigger] canonical(s)[i]),
    decreases s.len(),
{
    if s.len() > 0 {
        let t = s.drop_last();
        assert forall|i: int, j: int| 0 <= i < j < t.len() implies #[trigger] t[i].0
            != #[trigger] t[j].0 by {
            assert(s[i].0 != s[j].0);
        }
        lemma_canonical_distinct(t);
        let c = canonical(t);
        assert forall|i: int| 0 <= i < c.len() implies (#[trigger] c[i]).0 != s.last().0 by {
            let k = choose|k: int| 0 <= k < t.len() && t[k] == c[i];
            assert(s[k].0 != s[s.len() - 1].0);
        }
        lemma_insert_distinct(c, s.last());
        let r = canonical(s);
        assert forall|i: int| 0 <= i < r.len() implies s.contains(#[trigger] r[i]) by {
            if r[i] == s.last() {
                assert(s[s.len() - 1] == r[i]);
            } else {
                assert(c.contains(r[i]));
                let m = choose|m: int| 0 <= m < c.len() && c[m] == r[i];
                let k = choose|k: int| 0 <= k < t.len() && t[k] == c[m];
                assert(s[k] == r[i]);
            }
        }
    }
}

/// A heading in rising name order is already canonical.
pub proof fn law_canonical_of_rising(s: HeadingView)
    requires
        names_rise(s),
    ensures
        canonical(s) == s,
    decreases s.len(),
{
    if s.len() > 0 {
        let t = s.drop_last();
        assert forall|i: int, j: int| 0 <= i < j < t.len() implies before(
            #[trigger] t[i].0,
            #[trigger] t[j].0,
        ) by {
            assert(before(s[i].0, s[j].0));
        }
        law_canonical_of_rising(t);
        if t.len() > 0 {
            assert(before(s[s.len() - 2].0, s[s.len() - 1].0));
            law_name_order(s[s.len() - 2].0, s[s.len() - 1].0, s[s.len() - 2].0);
        }
        assert(t.push(s.last()) =~= s);
    } else {
        assert(s =~= Seq::empty());
    }
}

pub proof fn lemma_rising_is_unique(x: HeadingView, y: HeadingView)
    requires
        names_rise(x),
        names_rise(y),
        forall|a: (Name, TypeView)| x.contains(a) <==> y.contains(a),
    ensures
        x == y,
    decreases x.len(),
{
    if x.len() == 0 {
        if y.len() > 0 {
            assert(y.contains(y[0]));
            assert(x.contains(y[0]));
        }
        assert(x =~= y);
    } else if y.len() == 0 {
        assert(x.contains(x[0]));
        assert(y.contains(x[0]));
    } else {
        assert(x.contains(x[x.len() - 1]));
        assert(y.contains(y[y.len() - 1]));
        let p = choose|p: int| 0 <= p < y.len() && y[p] == x[x.len() - 1];
        let q = choose|q: int| 0 <= q < x.len() && x[q] == y[y.len() - 1];
        if p < y.len() - 1 {
            assert(before(y[p].0, y[y.len() - 1].0));
            if q < x.len() - 1 {
                assert(before(x[q].0, x[x.len() - 1].0));
            }
            law_name_order(x[x.len() - 1].0, y[y.len() - 1].0, x[x.len() - 1].0);
        }
        assert(x.last() == y.last());
        let (s, t) = (x.drop_last(), y.drop_last());
        assert(names_rise(s)) by {
            assert forall|i: int, j: int| 0 <= i < j < s.len() implies before(
                #[trigger] s[i].0,
                #[trigger] s[j].0,
            ) by {
                assert(before(x[i].0, x[j].0));
            }
        }
        assert(names_rise(t)) by {
            assert forall|i: int, j: int| 0 <= i < j < t.len() implies before(
                #[trigger] t[i].0,
                #[trigger] t[j].0,
            ) by {
                assert(before(y[i].0, y[j].0));
            }
        }
        assert forall|a: (Name, TypeView)| s.contains(a) <==> t.contains(a) by {
            if s.contains(a) {
                let i = choose|i: int| 0 <= i < s.len() && s[i] == a;
                assert(x[i] == a);
                assert(x.contains(a));
                let j = choose|j: int| 0 <= j < y.len() && y[j] == a;
                assert(before(x[i].0, x[x.len() - 1].0));
                law_name_order(a.0, a.0, a.0);
                assert(j < y.len() - 1);
                assert(t[j] == a);
            }
            if t.contains(a) {
                let i = choose|i: int| 0 <= i < t.len() && t[i] == a;
                assert(y[i] == a);
                assert(y.contains(a));
                let j = choose|j: int| 0 <= j < x.len() && x[j] == a;
                assert(before(y[i].0, y[y.len() - 1].0));
                law_name_order(a.0, a.0, a.0);
                assert(j < x.len() - 1);
                assert(s[j] == a);
            }
        }
        lemma_rising_is_unique(s, t);
        assert(x =~= s.push(x.last()));
        assert(y =~= t.push(y.last()));
    }
}

/// A heading does not depend on the order in which its attributes are given.
pub proof fn law_heading_ignores_order(s: HeadingView, t: HeadingView)
    requires
        names_distinct(s),
        names_distinct(t),
        s.to_multiset() == t.to_multiset(),
    ensures
        canonical(s) == canonical(t),
{
    broadcast use vstd::seq_lib::group_to_multiset_ensures;

    law_canonical_rises(s);
    law_canonical_rises(t);
    law_canonical_keeps_attributes(s);
    law_canonical_keeps_attributes(t);
    let (x, y) = (canonical(s), canonical(t));
    assert forall|a: (Name, TypeView)| x.contains(a) <==> y.contains(a) by {
        assert(x.contains(a) <==> x.to_multiset().count(a) > 0);
        assert(y.contains(a) <==> y.to_multiset().count(a) > 0);
    }
    lemma_rising_is_unique(x, y);
}

} // verus!
