//! Relational operators on values in the program's own memory do what they are named
//! after.

use crate::ast::BinaryOp;
use crate::ir::{HeadingId, InstView, ProcTypeView, ValueId};
use crate::lower::condition_laws::{match_up, part_of};
use crate::lower::meaning::{
    heading_of, inst_holds, is_joined, is_narrowed, obeys, rows_are, Machine, Site,
};
use crate::lower::patterns::kept_attrs;
use crate::lower::state::State;
use crate::lower::steps::combined_values;
use crate::lower::valid::begins;
use crate::lower::valid::primitives::lemma_heading_index;
use crate::rel_laws::{lemma_canonical_names, lemma_within_names};
use crate::rel_meaning::{narrow, over, Row};
use crate::text::Name;
use crate::types::{attr_names, canonical, HeadingView};
use vstd::prelude::*;

verus! {

/// Whether a relation's value has that heading, and rows over it.
pub open spec fn holds_relation(m: Machine, st: State, v: ValueId, id: HeadingId) -> bool {
    &&& st.type_of(v) == ProcTypeView::Relation(id)
    &&& id.0 < st.headings.len()
    &&& forall|s: Row| #[trigger] (m.row)(v, s) ==> over(s, attr_names(st.headings[id.0 as int]))
}

/// The names that a projection keeps.
proof fn lemma_part(h: HeadingView, listed: Seq<Name>, all_but: bool, s: Row)
    requires
        over(s, attr_names(h)),
    ensures
        narrow(s, attr_names(canonical(kept_attrs(h, listed, all_but)))) == part_of(
            s,
            listed,
            all_but,
        ),
{
    let kept = kept_attrs(h, listed, all_but);
    let x = narrow(s, attr_names(canonical(kept)));
    let y = part_of(s, listed, all_but);
    assert forall|n: Name| #[trigger] x.dom().contains(n) <==> y.dom().contains(n) by {
        lemma_canonical_names(kept, n);
        lemma_within_names(h, listed, n);
    }
    assert(x =~= y);
}

/// A projection of a value has exactly the parts of its rows under the listed names,
/// or outside them.
pub proof fn law_projections_keep_the_listed(
    site: Site,
    m: Machine,
    st: State,
    src: ValueId,
    id: HeadingId,
    listed: Seq<Name>,
    all_but: bool,
    r: Row,
)
    requires
        holds_relation(m, st, src, id),
        st.headings.len() <= u32::MAX,
        st.project(src, listed, all_but).0.stop is None,
        begins(site.headings, st.project(src, listed, all_but).0.headings),
        obeys(site, m, st.project(src, listed, all_but).0.frame.insts),
    ensures
        (m.row)(st.project(src, listed, all_but).1, r) <==> exists|s: Row|
            (m.row)(src, s) && r == #[trigger] part_of(s, listed, all_but),
{
    reveal(State::project);
    reveal(State::relation_id);
    reveal(State::heading_at);
    reveal(State::intern);
    reveal(State::define);
    reveal(State::halted);
    reveal(State::emit);
    let (out, v) = st.project(src, listed, all_but);
    let h = st.headings[id.0 as int];
    let wanted = canonical(kept_attrs(h, listed, all_but));
    let (a, result) = st.intern(wanted);
    lemma_heading_index(st.headings, wanted);
    assert(a.headings[result.0 as int] == wanted);
    assert(heading_of(site.headings, result) == wanted) by {
        assert(site.headings[result.0 as int] == out.headings[result.0 as int]);
    }
    let inst = InstView::Project { dst: v, src, src_heading_id: id, result_heading_id: result };
    assert(out.frame.insts[out.frame.insts.len() - 1] == inst);
    assert(inst_holds(site, m, inst));
    let rows = |x: Row| is_narrowed(m, src, attr_names(heading_of(site.headings, result)), x);
    assert(rows_are(m, v, rows));
    assert((m.row)(v, r) == rows(r));
    if (m.row)(v, r) {
        let s = choose|s: Row| (m.row)(src, s) && r == #[trigger] narrow(s, attr_names(wanted));
        lemma_part(h, listed, all_but, s);
        assert(r == part_of(s, listed, all_but));
    }
    if exists|s: Row| (m.row)(src, s) && r == #[trigger] part_of(s, listed, all_but) {
        let s = choose|s: Row| (m.row)(src, s) && r == #[trigger] part_of(s, listed, all_but);
        lemma_part(h, listed, all_but, s);
        assert(r == narrow(s, attr_names(wanted)));
    }
}

/// Two rows that match are the parts of their union.
proof fn lemma_together(a: Row, b: Row, ours: Seq<Name>, theirs: Seq<Name>)
    requires
        over(a, ours),
        over(b, theirs),
        match_up(a, b),
    ensures
        narrow(a.union_prefer_right(b), ours) == a,
        narrow(a.union_prefer_right(b), theirs) == b,
{
    let r = a.union_prefer_right(b);
    let x = narrow(r, ours);
    assert forall|n: Name| #[trigger] x.dom().contains(n) <==> a.dom().contains(n) by {
        assert(a.dom().contains(n) <==> ours.contains(n));
    }
    assert forall|n: Name| #[trigger] x.dom().contains(n) implies x[n] == a[n] by {
        assert(a.dom().contains(n));
    }
    assert(x =~= a);
    assert(narrow(r, theirs) =~= b);
}

/// A join of two values has exactly the rows that are made of one row of each, where
/// these have the same value under each attribute that both have.
pub proof fn law_joins_match_rows(
    site: Site,
    m: Machine,
    st: State,
    lhs: ValueId,
    rhs: ValueId,
    l: HeadingId,
    g: HeadingId,
    r: Row,
)
    requires
        holds_relation(m, st, lhs, l),
        holds_relation(m, st, rhs, g),
        st.join(lhs, rhs).0.stop is None,
        begins(site.headings, st.headings),
        obeys(site, m, st.join(lhs, rhs).0.frame.insts),
    ensures
        (m.row)(st.join(lhs, rhs).1, r) <==> exists|a: Row, b: Row|
            (m.row)(lhs, a) && (m.row)(rhs, b) && #[trigger] match_up(a, b) && r
                == a.union_prefer_right(b),
{
    reveal(State::join);
    reveal(State::relation_id);
    reveal(State::heading_at);
    reveal(State::unlowered);
    reveal(State::intern);
    reveal(State::define);
    reveal(State::halted);
    reveal(State::emit);
    let (out, v) = st.join(lhs, rhs);
    let (ours, theirs) = (
        attr_names(st.headings[l.0 as int]),
        attr_names(st.headings[g.0 as int]),
    );
    assert(site.headings[l.0 as int] == st.headings[l.0 as int]);
    assert(site.headings[g.0 as int] == st.headings[g.0 as int]);
    let inst = out.frame.insts[out.frame.insts.len() - 1];
    assert(inst_holds(site, m, inst));
    let rows = |x: Row| is_joined(
        m,
        lhs,
        rhs,
        attr_names(heading_of(site.headings, l)),
        attr_names(heading_of(site.headings, g)),
        x,
    );
    assert(rows_are(m, v, rows));
    assert((m.row)(v, r) == rows(r));
    if (m.row)(v, r) {
        let (a, b) = (narrow(r, ours), narrow(r, theirs));
        assert(over(a, ours) && over(b, theirs));
        assert(r =~= a.union_prefer_right(b));
        assert(match_up(a, b));
    }
    if exists|a: Row, b: Row|
        (m.row)(lhs, a) && (m.row)(rhs, b) && #[trigger] match_up(a, b) && r
            == a.union_prefer_right(b) {
        let (a, b) = choose|a: Row, b: Row|
            (m.row)(lhs, a) && (m.row)(rhs, b) && #[trigger] match_up(a, b) && r
                == a.union_prefer_right(b);
        assert(over(a, ours) && over(b, theirs));
        lemma_together(a, b, ours, theirs);
    }
}

/// A union of two values has the rows of either, a difference those of the first that
/// are not in the second.
pub proof fn law_unions_and_differences_take_their_rows(
    site: Site,
    m: Machine,
    st: State,
    op: BinaryOp,
    lhs: ValueId,
    rhs: ValueId,
    r: Row,
)
    requires
        op == BinaryOp::Union || op == BinaryOp::Minus,
        combined_values(st, op, lhs, rhs).0.stop is None,
        obeys(site, m, combined_values(st, op, lhs, rhs).0.frame.insts),
    ensures
        op == BinaryOp::Union ==> ((m.row)(combined_values(st, op, lhs, rhs).1, r) <==> (m.row)(
            lhs,
            r,
        ) || (m.row)(rhs, r)),
        op == BinaryOp::Minus ==> ((m.row)(combined_values(st, op, lhs, rhs).1, r) <==> (m.row)(
            lhs,
            r,
        ) && !(m.row)(rhs, r)),
{
    reveal(combined_values);
    if op == BinaryOp::Union {
        crate::lower::update_laws::lemma_unite(site, m, st, lhs, rhs);
    } else {
        crate::lower::update_laws::lemma_subtract(site, m, st, lhs, rhs);
    }
}

} // verus!
