//! Overwriting attributes keeps the others.

use crate::ast::Expr;
use crate::lower::condition_laws::{
    cells_of, is_ordinary, law_computed_values_are_as_written, row_with,
};
use crate::lower::meaning::{value_of, Codes};
use crate::lower::relational::{
    pair_names, restricted, scalars_of, sub_keep, sub_name, sub_names, sub_renames, substituted,
};
use crate::lower::state::names_in;
use crate::lower::steps::{complement, updated_rel};
use crate::rel_analysis::renamed;
use crate::rel_expr::{PredicateView, RelView, ScalarView};
use crate::rel_laws::{law_rows_fit_heading, lemma_filter_contains};
use crate::rel_meaning::{extended, is_renamed, narrow, over, Row, World};
use crate::text::Name;
use crate::types::{attr_names, lookup_attr, HeadingView, TypeView};
use vstd::prelude::*;

verus! {

/// Whether the pairs overwrite attributes of the heading, each once, and none of its
/// attributes has a name that stands for another while it is overwritten.
pub open spec fn overwrites(h: HeadingView, names: Seq<Name>) -> bool {
    &&& names.len() > 0
    &&& names.no_duplicates()
    &&& forall|i: int| 0 <= i < names.len() ==> lookup_attr(h, #[trigger] names[i]) is Some
    &&& forall|i: int| 0 <= i < names.len() ==> attr_names(h).contains(#[trigger] names[i])
    &&& forall|i: int|
        0 <= i < names.len() ==> !attr_names(h).contains(sub_name(h, #[trigger] names[i]))
}

/// The names that stand for others are as different as these.
proof fn lemma_apart(h: HeadingView, names: Seq<Name>, i: int, j: int)
    requires
        overwrites(h, names),
        0 <= i < names.len(),
        0 <= j < names.len(),
        sub_name(h, names[i]) == sub_name(h, names[j]),
    ensures
        i == j,
{
    let t = "__coddl_replace_tmp_"@;
    assert((t + names[i]).skip(t.len() as int) =~= names[i]);
    assert((t + names[j]).skip(t.len() as int) =~= names[j]);
}

/// The renames give each new value its name.
proof fn lemma_renames(h: HeadingView, names: Seq<Name>, all: Seq<Name>)
    requires
        overwrites(h, all),
        names.len() <= all.len(),
        names == all.take(names.len() as int),
    ensures
        sub_renames(h, names).len() == names.len(),
        forall|i: int|
            0 <= i < names.len() ==> #[trigger] sub_renames(h, names)[i] == (
                sub_name(h, names[i]),
                names[i],
            ),
    decreases names.len(),
{
    if names.len() > 0 {
        let t = names.drop_last();
        assert(t =~= all.take(t.len() as int));
        lemma_renames(h, t, all);
        assert(names.last() == all[names.len() - 1]);
    }
}

/// What a renaming makes of a name, by the first pair of that name.
proof fn lemma_renamed(renames: Seq<(Name, Name)>, n: Name)
    ensures
        (forall|i: int| 0 <= i < renames.len() ==> (#[trigger] renames[i]).0 != n) ==> renamed(
            renames,
            n,
        ) == n,
        forall|i: int|
            0 <= i < renames.len() && (#[trigger] renames[i]).0 == n && (forall|j: int|
                0 <= j < i ==> (#[trigger] renames[j]).0 != n) ==> renamed(renames, n)
                == renames[i].1,
    decreases renames.len(),
{
    if renames.len() > 0 {
        let t = renames.drop_first();
        lemma_renamed(t, n);
        if forall|i: int| 0 <= i < renames.len() ==> (#[trigger] renames[i]).0 != n {
            assert(renames[0].0 != n);
            assert forall|i: int| 0 <= i < t.len() implies (#[trigger] t[i]).0 != n by {
                assert(t[i] == renames[i + 1]);
            }
        }
        assert forall|i: int|
            0 <= i < renames.len() && (#[trigger] renames[i]).0 == n && (forall|j: int|
                0 <= j < i ==> (#[trigger] renames[j]).0 != n) implies renamed(renames, n)
            == renames[i].1 by {
            if i > 0 {
                assert(renames[0].0 != n);
                assert(t[i - 1] == renames[i]);
                assert forall|j: int| 0 <= j < i - 1 implies (#[trigger] t[j]).0 != n by {
                    assert(t[j] == renames[j + 1]);
                }
            }
        }
    }
}

/// The renaming of all the new values.
proof fn lemma_renamed_all(h: HeadingView, names: Seq<Name>)
    requires
        overwrites(h, names),
    ensures
        forall|i: int|
            0 <= i < names.len() ==> renamed(
                sub_renames(h, names),
                sub_name(h, #[trigger] names[i]),
            ) == names[i],
        forall|n: Name|
            attr_names(h).contains(n) ==> #[trigger] renamed(sub_renames(h, names), n) == n,
{
    assert(names.take(names.len() as int) =~= names);
    lemma_renames(h, names, names);
    let all = sub_renames(h, names);
    assert forall|i: int| 0 <= i < names.len() implies renamed(
        all,
        sub_name(h, #[trigger] names[i]),
    ) == names[i] by {
        let n = sub_name(h, names[i]);
        lemma_renamed(all, n);
        assert forall|j: int| 0 <= j < i implies (#[trigger] all[j]).0 != n by {
            if sub_name(h, names[j]) == n {
                lemma_apart(h, names, j, i);
            }
        }
        assert(all[i].0 == n);
    }
    assert forall|n: Name| attr_names(h).contains(n) implies #[trigger] renamed(all, n) == n by {
        lemma_renamed(all, n);
        assert forall|j: int| 0 <= j < all.len() implies (#[trigger] all[j]).0 != n by {
            assert(sub_name(h, names[j]) != n);
        }
    }
}

/// The new values, under the names that stand for theirs.
spec fn held(
    h: HeadingView,
    pairs: Seq<(Name, TypeView, ScalarView)>,
) -> Seq<(Name, TypeView, ScalarView)> {
    Seq::new(pairs.len(), |i: int| (sub_name(h, pairs[i].0), pairs[i].1, pairs[i].2))
}

/// A row with the first `k` new values beside its own, and with its own overwritten.
proof fn lemma_rows(
    c: Codes,
    w: World,
    h: HeadingView,
    t: Row,
    pairs: Seq<(String, Expr)>,
    k: nat,
)
    requires
        is_ordinary(c, w),
        overwrites(h, names_in(pairs)),
        k <= pairs.len(),
        over(t, attr_names(h)),
        scalars_of(pairs, k, h) is Some,
    ensures
        ({
            let names = names_in(pairs);
            let x = extended(w, t, held(h, scalars_of(pairs, k, h)->0));
            let y = row_with(c, t, pairs, k);
            &&& scalars_of(pairs, k, h)->0.len() == k
            &&& forall|i: int|
                0 <= i < k ==> x.dom().contains(sub_name(h, #[trigger] names[i])) && x[sub_name(
                    h,
                    names[i],
                )] == value_of(c, pairs[i].1, cells_of(t)) && y[names[i]] == value_of(
                    c,
                    pairs[i].1,
                    cells_of(t),
                )
            &&& forall|n: Name|
                attr_names(h).contains(n) ==> #[trigger] x.dom().contains(n) && x[n] == t[n]
            &&& forall|n: Name| #[trigger] y.dom().contains(n) <==> attr_names(h).contains(n)
            &&& forall|n: Name|
                attr_names(h).contains(n) && (forall|i: int|
                    0 <= i < k ==> #[trigger] names[i] != n) ==> #[trigger] y[n] == t[n]
        }),
    decreases k,
{
    if k > 0 {
        let names = names_in(pairs);
        lemma_rows(c, w, h, t, pairs, (k - 1) as nat);
        let before = scalars_of(pairs, (k - 1) as nat, h)->0;
        let all = scalars_of(pairs, k, h)->0;
        assert(held(h, all).drop_last() =~= held(h, before));
        assert(names[k - 1] == pairs[k - 1].0@);
        law_computed_values_are_as_written(c, pairs[k - 1].1, t);
        let x = extended(w, t, held(h, all));
        let y = row_with(c, t, pairs, k);
        assert forall|i: int| 0 <= i < k implies x.dom().contains(sub_name(h, #[trigger] names[i]))
            && x[sub_name(h, names[i])] == value_of(c, pairs[i].1, cells_of(t)) && y[names[i]]
            == value_of(c, pairs[i].1, cells_of(t)) by {
            if i < k - 1 && sub_name(h, names[i]) == sub_name(h, names[k - 1]) {
                lemma_apart(h, names, i, k - 1);
            }
        }
        assert forall|n: Name| attr_names(h).contains(n) && (forall|i: int|
            0 <= i < k ==> #[trigger] names[i] != n) implies #[trigger] y[n] == t[n] by {
            assert(names[k - 1] != n);
            let z = row_with(c, t, pairs, (k - 1) as nat);
            assert(forall|i: int| 0 <= i < k - 1 ==> #[trigger] names[i] != n);
            assert(z[n] == t[n]);
            assert(z.dom().contains(n));
        }
        assert forall|n: Name| #[trigger] y.dom().contains(n) <==> attr_names(h).contains(n) by {
            let z = row_with(c, t, pairs, (k - 1) as nat);
            assert(z.dom().contains(n) <==> attr_names(h).contains(n));
            assert(attr_names(h).contains(names[k - 1]));
        }
        assert forall|n: Name| attr_names(h).contains(n) implies #[trigger] x.dom().contains(n)
            && x[n] == t[n] by {
            let z = extended(w, t, held(h, before));
            assert(z.dom().contains(n) && z[n] == t[n]);
            assert(n != sub_name(h, names[k - 1]));
        }
    }
}

/// The attributes that are kept: those that are not overwritten, and the new values.
proof fn lemma_kept(h: HeadingView, names: Seq<Name>, n: Name)
    requires
        overwrites(h, names),
    ensures
        sub_keep(h, names, names).contains(n) <==> attr_names(h).contains(n) && !names.contains(n)
            || sub_names(h, names).contains(n),
{
    let (a, b) = (attr_names(h), sub_names(h, names));
    lemma_filter_contains(a + b, |m: Name| !names.contains(m), n);
    if a.contains(n) {
        let i = choose|i: int| 0 <= i < a.len() && a[i] == n;
        assert((a + b)[i] == n);
    }
    if b.contains(n) {
        let i = choose|i: int| 0 <= i < b.len() && b[i] == n;
        assert((a + b)[a.len() + i] == n);
        assert(!a.contains(sub_name(h, names[i])));
        if names.contains(n) {
            let j = choose|j: int| 0 <= j < names.len() && names[j] == n;
            assert(a.contains(names[j]));
        }
    }
}

/// The row with its new values beside it, narrowed and renamed, is the row overwritten.
proof fn lemma_overwritten_row(
    c: Codes,
    w: World,
    h: HeadingView,
    t: Row,
    pairs: Seq<(String, Expr)>,
    r: Row,
)
    requires
        is_ordinary(c, w),
        overwrites(h, names_in(pairs)),
        over(t, attr_names(h)),
        scalars_of(pairs, pairs.len(), h) is Some,
    ensures
        ({
            let names = names_in(pairs);
            let x = extended(w, t, held(h, scalars_of(pairs, pairs.len(), h)->0));
            let s = narrow(x, sub_keep(h, names, names));
            is_renamed(s, r, sub_renames(h, names)) <==> r == row_with(c, t, pairs, pairs.len())
        }),
{
    let names = names_in(pairs);
    let renames = sub_renames(h, names);
    let x = extended(w, t, held(h, scalars_of(pairs, pairs.len(), h)->0));
    let keep = sub_keep(h, names, names);
    let s = narrow(x, keep);
    let y = row_with(c, t, pairs, pairs.len());
    lemma_rows(c, w, h, t, pairs, pairs.len());
    lemma_renamed_all(h, names);
    assert forall|n: Name| #[trigger] s.dom().contains(n) implies y.dom().contains(
        renamed(renames, n),
    ) && y[renamed(renames, n)] == s[n] by {
        lemma_kept(h, names, n);
        lemma_from(h, names, n);
    }
    assert forall|i: int| 0 <= i < names.len() implies s.dom().contains(
        sub_name(h, #[trigger] names[i]),
    ) by {
        let n = sub_name(h, names[i]);
        assert(sub_names(h, names)[i] == n);
        lemma_kept(h, names, n);
    }
    assert forall|n: Name| attr_names(h).contains(n) && !names.contains(n) implies
        #[trigger] s.dom().contains(n) by {
        lemma_kept(h, names, n);
        assert(x.dom().contains(n));
    }
    if r == y {
        assert forall|m: Name| #[trigger] r.dom().contains(m) implies exists|n: Name|
            s.dom().contains(n) && #[trigger] renamed(renames, n) == m by {
            if names.contains(m) {
                let i = choose|i: int| 0 <= i < names.len() && names[i] == m;
                assert(renamed(renames, sub_name(h, names[i])) == m);
            } else {
                assert(s.dom().contains(m) && renamed(renames, m) == m);
            }
        }
    }
    if is_renamed(s, r, renames) {
        assert forall|m: Name| #[trigger] y.dom().contains(m) implies r.dom().contains(m) && r[m]
            == y[m] by {
            if names.contains(m) {
                let i = choose|i: int| 0 <= i < names.len() && names[i] == m;
                let n = sub_name(h, names[i]);
                assert(s.dom().contains(n) && renamed(renames, n) == m);
            } else {
                assert(s.dom().contains(m) && renamed(renames, m) == m);
            }
        }
        assert forall|m: Name| #[trigger] r.dom().contains(m) implies y.dom().contains(m) by {
            let n = choose|n: Name| s.dom().contains(n) && #[trigger] renamed(renames, n) == m;
            assert(y.dom().contains(renamed(renames, n)));
        }
        assert(r =~= y);
    }
}

/// A name is not overwritten, or it stands for one that is.
proof fn lemma_from(h: HeadingView, names: Seq<Name>, n: Name)
    requires
        overwrites(h, names),
        attr_names(h).contains(n) && !names.contains(n) || sub_names(h, names).contains(n),
    ensures
        attr_names(h).contains(n) && (forall|i: int|
            0 <= i < names.len() ==> #[trigger] names[i] != n) || exists|i: int|
            0 <= i < names.len() && n == sub_name(h, #[trigger] names[i]),
{
    if sub_names(h, names).contains(n) {
        let i = choose|i: int| 0 <= i < names.len() && sub_names(h, names)[i] == n;
        assert(n == sub_name(h, names[i]));
    } else {
        assert forall|i: int| 0 <= i < names.len() implies #[trigger] names[i] != n by {
            if names[i] == n {
                assert(names.contains(n));
            }
        }
    }
}

proof fn lemma_scalar_names(pairs: Seq<(String, Expr)>, k: nat, h: HeadingView)
    requires
        k <= pairs.len(),
        scalars_of(pairs, k, h) is Some,
    ensures
        pair_names(scalars_of(pairs, k, h)->0) =~= names_in(pairs).take(k as int),
    decreases k,
{
    if k > 0 {
        lemma_scalar_names(pairs, (k - 1) as nat, h);
        let all = scalars_of(pairs, k, h)->0;
        let before = scalars_of(pairs, (k - 1) as nat, h)->0;
        assert(pair_names(before).len() == k - 1);
        assert forall|i: int| 0 <= i < all.len() implies pair_names(all)[i] == names_in(pairs)[i] by {
            if i < k - 1 {
                assert(all[i] == before[i]);
                assert(pair_names(before)[i] == names_in(pairs).take(k - 1)[i]);
            }
        }
    }
}

/// An expression with computed attributes beside its own.
spec fn widened(input: RelView, extends: Seq<(Name, TypeView, ScalarView)>) -> RelView {
    RelView::Extend { input: Box::new(input), extends }
}

/// An expression narrowed to names.
spec fn narrowed(input: RelView, keep: Seq<Name>) -> RelView {
    RelView::Project { input: Box::new(input), keep }
}

/// An expression under new names.
spec fn relabelled(input: RelView, renames: Seq<(Name, Name)>) -> RelView {
    RelView::Rename { input: Box::new(input), renames }
}

proof fn lemma_yields_widened(
    w: World,
    input: RelView,
    extends: Seq<(Name, TypeView, ScalarView)>,
    r: Row,
)
    ensures
        widened(input, extends).yields(w, r) <==> exists|t: Row|
            input.yields(w, t) && r == #[trigger] extended(w, t, extends),
{
    match widened(input, extends) {
        RelView::Extend { input: x, extends: y } => {
            assert(*x == input && y == extends);
        },
        _ => {},
    }
}

proof fn lemma_yields_narrowed(w: World, input: RelView, keep: Seq<Name>, r: Row)
    ensures
        narrowed(input, keep).yields(w, r) <==> exists|t: Row|
            input.yields(w, t) && r == #[trigger] narrow(t, keep),
{
    match narrowed(input, keep) {
        RelView::Project { input: x, keep: y } => {
            assert(*x == input && y == keep);
        },
        _ => {},
    }
}

/// Whether a row is another under new names.
#[verifier::opaque]
spec fn moves(s: Row, r: Row, renames: Seq<(Name, Name)>) -> bool {
    is_renamed(s, r, renames)
}

proof fn lemma_yields_relabelled(w: World, input: RelView, renames: Seq<(Name, Name)>, r: Row)
    ensures
        relabelled(input, renames).yields(w, r) <==> exists|t: Row|
            input.yields(w, t) && #[trigger] moves(t, r, renames),
{
    reveal(moves);
    let e = relabelled(input, renames);
    match e {
        RelView::Rename { input: x, renames: y } => {
            assert(*x == input && y == renames);
            if e.yields(w, r) {
                let t = choose|t: Row| x.yields(w, t) && #[trigger] is_renamed(t, r, y);
                assert(input.yields(w, t) && moves(t, r, renames));
            }
            if exists|t: Row| input.yields(w, t) && #[trigger] moves(t, r, renames) {
                let t = choose|t: Row| input.yields(w, t) && #[trigger] moves(t, r, renames);
                assert(x.yields(w, t) && is_renamed(t, r, y));
                assert(e.yields(w, r));
            }
        },
        _ => {},
    }
}

/// Overwriting attributes of an expression's rows gives, for each row, that row with
/// the values written for the attributes, and nothing else: every other attribute keeps
/// its value.
pub proof fn law_overwriting_keeps_the_rest(
    c: Codes,
    w: World,
    input: RelView,
    pairs: Seq<(String, Expr)>,
    r: Row,
)
    requires
        is_ordinary(c, w),
        input.well_typed(),
        input.legal_in(w),
        overwrites(input.heading(), names_in(pairs)),
        scalars_of(pairs, pairs.len(), input.heading()) is Some,
    ensures
        substituted(
            input,
            scalars_of(pairs, pairs.len(), input.heading())->0,
            names_in(pairs),
        ).yields(w, r) <==> exists|t: Row|
            input.yields(w, t) && r == #[trigger] row_with(c, t, pairs, pairs.len()),
{
    let h = input.heading();
    let names = names_in(pairs);
    let extends = scalars_of(pairs, pairs.len(), h)->0;
    lemma_scalar_names(pairs, pairs.len(), h);
    assert(names.take(pairs.len() as int) =~= names);
    lemma_renames(h, names, names);
    let x = widened(input, held(h, extends));
    let y = narrowed(x, sub_keep(h, names, names));
    let z = relabelled(y, sub_renames(h, names));
    assert(held(h, extends) =~= Seq::new(
        extends.len(),
        |i: int| (sub_name(h, extends[i].0), extends[i].1, extends[i].2),
    ));
    assert(z == substituted(input, extends, names));
    lemma_yields_relabelled(w, y, sub_renames(h, names), r);
    if z.yields(w, r) {
        let s = choose|s: Row| y.yields(w, s) && #[trigger] moves(s, r, sub_renames(h, names));
        lemma_yields_narrowed(w, x, sub_keep(h, names, names), s);
        let u = choose|u: Row|
            x.yields(w, u) && s == #[trigger] narrow(u, sub_keep(h, names, names));
        lemma_yields_widened(w, input, held(h, extends), u);
        let t = choose|t: Row|
            input.yields(w, t) && u == #[trigger] extended(w, t, held(h, extends));
        law_rows_fit_heading(input, w, t);
        lemma_moved(c, w, h, t, pairs, r);
        assert(r == row_with(c, t, pairs, pairs.len()));
    }
    if exists|t: Row| input.yields(w, t) && r == #[trigger] row_with(c, t, pairs, pairs.len()) {
        let t = choose|t: Row|
            input.yields(w, t) && r == #[trigger] row_with(c, t, pairs, pairs.len());
        law_rows_fit_heading(input, w, t);
        lemma_moved(c, w, h, t, pairs, r);
        let u = extended(w, t, held(h, extends));
        lemma_yields_widened(w, input, held(h, extends), u);
        let s = narrow(u, sub_keep(h, names, names));
        lemma_yields_narrowed(w, x, sub_keep(h, names, names), s);
        assert(y.yields(w, s) && moves(s, r, sub_renames(h, names)));
    }
}

proof fn lemma_moved(
    c: Codes,
    w: World,
    h: HeadingView,
    t: Row,
    pairs: Seq<(String, Expr)>,
    r: Row,
)
    requires
        is_ordinary(c, w),
        overwrites(h, names_in(pairs)),
        over(t, attr_names(h)),
        scalars_of(pairs, pairs.len(), h) is Some,
    ensures
        ({
            let names = names_in(pairs);
            let x = extended(w, t, held(h, scalars_of(pairs, pairs.len(), h)->0));
            let s = narrow(x, sub_keep(h, names, names));
            moves(s, r, sub_renames(h, names)) <==> r == row_with(c, t, pairs, pairs.len())
        }),
{
    reveal(moves);
    lemma_overwritten_row(c, w, h, t, pairs, r);
}

/// The value of a relvar whose rows under one test are overwritten has exactly the rows
/// of which the test does not hold, and those of which it does, overwritten.
pub proof fn law_updated_values_keep_the_rest(
    c: Codes,
    w: World,
    target: RelView,
    test: PredicateView,
    pairs: Seq<(String, Expr)>,
    r: Row,
)
    requires
        is_ordinary(c, w),
        target.well_typed(),
        target.legal_in(w),
        overwrites(target.heading(), names_in(pairs)),
        updated_rel(target, Some(restricted(target, seq![test])), pairs, names_in(pairs)) is Some,
    ensures
        updated_rel(
            target,
            Some(restricted(target, seq![test])),
            pairs,
            names_in(pairs),
        )->0.yields(w, r) <==> target.yields(w, r) && !test.holds(w, r) || exists|t: Row|
            target.yields(w, t) && test.holds(w, t) && r == #[trigger] row_with(
                c,
                t,
                pairs,
                pairs.len(),
            ),
{
    reveal_with_fuel(restricted, 2);
    let input = restricted(target, seq![test]);
    assert(seq![test].drop_last() =~= Seq::empty());
    assert(input == RelView::Restrict { input: Box::new(target), pred: test });
    assert(input.heading() == target.heading());
    law_overwriting_keeps_the_rest(c, w, input, pairs, r);
    let value = updated_rel(target, Some(input), pairs, names_in(pairs))->0;
    let rest = complement(input)->0;
    let sub = substituted(
        input,
        scalars_of(pairs, pairs.len(), input.heading())->0,
        names_in(pairs),
    );
    assert(value == RelView::Or { lhs: Box::new(rest), rhs: Box::new(sub) });
    assert(value.yields(w, r) <==> rest.yields(w, r) || sub.yields(w, r));
    assert(rest.yields(w, r) <==> target.yields(w, r) && !test.holds(w, r));
    assert forall|t: Row| #[trigger] input.yields(w, t) <==> target.yields(w, t) && test.holds(
        w,
        t,
    ) by {}
    if sub.yields(w, r) {
        let t = choose|t: Row|
            input.yields(w, t) && r == #[trigger] row_with(c, t, pairs, pairs.len());
        assert(target.yields(w, t) && test.holds(w, t));
    }
}

} // verus!
