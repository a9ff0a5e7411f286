//! The queries of a program and the list of pushed expressions tell the same.

use crate::cut::{is_offered, QueryView};
use crate::ir::{BlockView, FunctionView, InstView, PlanView, ProcTypeView};
use crate::lower::state::{FrameView, State};
use crate::lower::valid::{
    begins, block_in, blocks_in, function_ok, functions_ok, inst_in, insts_in, Bounds,
};
use crate::rel_expr::RelView;
use vstd::multiset::Multiset;
use vstd::prelude::*;

verus! {

/// The statements that instructions query the database with.
pub open spec fn queried_in(s: Seq<InstView>, plans: Seq<PlanView>) -> Multiset<Seq<char>>
    decreases s.len(),
{
    if s.len() == 0 {
        Multiset::empty()
    } else {
        let before = queried_in(s.drop_last(), plans);
        match s.last() {
            InstView::Query { plan_id, .. } => before.insert(plans[plan_id as int].sql),
            _ => before,
        }
    }
}

/// The statements that blocks query the database with.
pub open spec fn queried_over(s: Seq<BlockView>, plans: Seq<PlanView>) -> Multiset<Seq<char>>
    decreases s.len(),
{
    if s.len() == 0 {
        Multiset::empty()
    } else {
        queried_over(s.drop_last(), plans).add(queried_in(s.last().insts, plans))
    }
}

/// The statements that functions query the database with.
pub open spec fn queried_by(s: Seq<FunctionView>, plans: Seq<PlanView>) -> Multiset<Seq<char>>
    decreases s.len(),
{
    if s.len() == 0 {
        Multiset::empty()
    } else {
        queried_by(s.drop_last(), plans).add(queried_over(s.last().blocks, plans))
    }
}

/// The statements that a function that is being built queries with so far.
pub open spec fn queried_here(f: FrameView, plans: Seq<PlanView>) -> Multiset<Seq<char>> {
    queried_over(f.blocks, plans).add(queried_in(f.insts, plans))
}

/// The statements that the code so far queries the database with.
pub open spec fn queried(st: State) -> Multiset<Seq<char>> {
    queried_by(st.functions, st.plans).add(queried_here(st.frame, st.plans))
}

/// The statements of pushed expressions.
pub open spec fn entry_texts(s: Seq<(RelView, Seq<char>)>) -> Multiset<Seq<char>>
    decreases s.len(),
{
    if s.len() == 0 {
        Multiset::empty()
    } else {
        entry_texts(s.drop_last()).insert(s.last().1)
    }
}

/// Whether statements of one key have one text.
pub open spec fn texts_by_key(answers: Seq<Option<QueryView>>) -> bool {
    forall|i: int, j: int|
        0 <= i < answers.len() && 0 <= j < answers.len() ==> (match (
            #[trigger] answers[i],
            #[trigger] answers[j],
        ) {
            (Some(p), Some(q)) => p.plan_key == q.plan_key ==> p.text == q.text,
            _ => true,
        })
}

/// Whether as many queries were added as pushed expressions, and of their
/// statements.
#[verifier::opaque]
pub open spec fn tells(a: State, b: State) -> bool {
    &&& queried(b).len() + a.relir.len() == queried(a).len() + b.relir.len()
    &&& texts_by_key(a.env.answers) ==> queried(b).add(entry_texts(a.relir)) == queried(a).add(
        entry_texts(b.relir),
    )
}

/// Without a new query everything is told.
pub broadcast proof fn lemma_same_told(a: State, b: State)
    requires
        b.functions == a.functions,
        b.plans == a.plans,
        b.frame.blocks == a.frame.blocks,
        b.frame.insts == a.frame.insts,
        b.relir == a.relir,
    ensures
        #[trigger] tells(a, b),
{
    reveal(tells);
}

/// As many queries as before, of the same statements.
pub proof fn lemma_as_told(a: State, b: State)
    requires
        queried(b) == queried(a),
        b.relir == a.relir,
    ensures
        tells(a, b),
{
    reveal(tells);
}

pub proof fn lemma_tells_on(a: State, b: State, c: State)
    requires
        tells(a, b),
        tells(b, c),
        b.env == a.env,
    ensures
        tells(a, c),
{
    reveal(tells);
    if texts_by_key(a.env.answers) {
        let (x, y, z) = (queried(a), queried(b), queried(c));
        let (p, q, r) = (entry_texts(a.relir), entry_texts(b.relir), entry_texts(c.relir));
        assert forall|t: Seq<char>| z.add(p).count(t) == x.add(r).count(t) by {
            assert(y.add(p).count(t) == x.add(q).count(t));
            assert(z.add(q).count(t) == y.add(r).count(t));
        }
        assert(z.add(p) =~= x.add(r));
    }
}

/// Whether these are the places of the statements of pushed expressions among
/// the first `n` statements supplied; each is one that the database is offered.
pub open spec fn placed(
    relir: Seq<(RelView, Seq<char>)>,
    answers: Seq<Option<QueryView>>,
    n: nat,
    places: Seq<int>,
) -> bool {
    &&& places.len() == relir.len()
    &&& forall|i: int|
        0 <= i < places.len() ==> 0 <= #[trigger] places[i] < n && places[i] < answers.len() && (
        answers[places[i]] matches Some(q) && q.text == relir[i].1) && is_offered(relir[i].0)
    &&& forall|i: int, j: int|
        0 <= i < j < places.len() ==> (#[trigger] places[i]) < (#[trigger] places[j])
}

/// Whether the statements of pushed expressions are among the first `n`
/// statements supplied, in that order.
#[verifier::opaque]
pub open spec fn in_asking_order(
    relir: Seq<(RelView, Seq<char>)>,
    answers: Seq<Option<QueryView>>,
    n: nat,
) -> bool {
    exists|places: Seq<int>| placed(relir, answers, n, places)
}

pub proof fn lemma_order_stays(
    relir: Seq<(RelView, Seq<char>)>,
    answers: Seq<Option<QueryView>>,
    m: nat,
    n: nat,
)
    requires
        in_asking_order(relir, answers, m),
        m <= n,
    ensures
        in_asking_order(relir, answers, n),
{
    reveal(in_asking_order);
    let places = choose|places: Seq<int>| placed(relir, answers, m, places);
    assert(placed(relir, answers, n, places));
}

/// One more, of the statement supplied last.
pub proof fn lemma_order_grows(
    relir: Seq<(RelView, Seq<char>)>,
    answers: Seq<Option<QueryView>>,
    n: nat,
    entry: (RelView, Seq<char>),
)
    requires
        in_asking_order(relir, answers, n),
        n < answers.len(),
        answers[n as int] matches Some(q) && q.text == entry.1,
        is_offered(entry.0),
    ensures
        in_asking_order(relir.push(entry), answers, n + 1),
{
    reveal(in_asking_order);
    let places = choose|places: Seq<int>| placed(relir, answers, n, places);
    assert(placed(relir.push(entry), answers, n + 1, places.push(n as int)));
}

pub proof fn lemma_order_of_none(answers: Seq<Option<QueryView>>, n: nat)
    ensures
        in_asking_order(Seq::empty(), answers, n),
{
    reveal(in_asking_order);
    assert(placed(Seq::empty(), answers, n, Seq::empty()));
}

/// More plans change nothing for instructions that query with earlier ones.
pub proof fn lemma_queried_in_stays(
    s: Seq<InstView>,
    b: Bounds,
    plans: Seq<PlanView>,
    more: Seq<PlanView>,
)
    requires
        insts_in(s, b),
        b.plans == plans.len(),
        begins(more, plans),
    ensures
        queried_in(s, more) == queried_in(s, plans),
    decreases s.len(),
{
    if s.len() > 0 {
        let front = s.drop_last();
        assert forall|i: int| 0 <= i < front.len() implies inst_in(#[trigger] front[i], b) by {
            assert(front[i] == s[i]);
        }
        lemma_queried_in_stays(front, b, plans, more);
        assert(inst_in(s[s.len() - 1], b));
        if let InstView::Query { plan_id, .. } = s.last() {
            assert(more[plan_id as int] == plans[plan_id as int]);
        }
    }
}

pub proof fn lemma_queried_over_stays(
    s: Seq<BlockView>,
    b: Bounds,
    plans: Seq<PlanView>,
    more: Seq<PlanView>,
)
    requires
        blocks_in(s, b),
        b.plans == plans.len(),
        begins(more, plans),
    ensures
        queried_over(s, more) == queried_over(s, plans),
    decreases s.len(),
{
    if s.len() > 0 {
        let front = s.drop_last();
        assert forall|i: int| 0 <= i < front.len() implies block_in(#[trigger] front[i], b) by {
            assert(front[i] == s[i]);
        }
        lemma_queried_over_stays(front, b, plans, more);
        assert(block_in(s[s.len() - 1], b));
        lemma_queried_in_stays(s.last().insts, b, plans, more);
    }
}

pub proof fn lemma_queried_by_stays(
    s: Seq<FunctionView>,
    types: Seq<Seq<ProcTypeView>>,
    b: Bounds,
    plans: Seq<PlanView>,
    more: Seq<PlanView>,
)
    requires
        functions_ok(s, types, b),
        b.plans == plans.len(),
        begins(more, plans),
    ensures
        queried_by(s, more) == queried_by(s, plans),
    decreases s.len(),
{
    if s.len() > 0 {
        let front = s.drop_last();
        assert forall|i: int| 0 <= i < front.len() implies function_ok(
            #[trigger] front[i],
            types.drop_last()[i],
            b,
        ) by {
            assert(front[i] == s[i]);
        }
        lemma_queried_by_stays(front, types.drop_last(), b, plans, more);
        let f = s.last();
        assert(function_ok(s[s.len() - 1], types[s.len() - 1], b));
        if f.blocks.len() > 0 {
            let n = types.last().len();
            lemma_queried_over_stays(
                f.blocks,
                Bounds { values: n, blocks: f.blocks.len(), ..b },
                plans,
                more,
            );
        }
    }
}

/// Instructions one behind another.
pub proof fn lemma_queried_concat(s: Seq<InstView>, t: Seq<InstView>, plans: Seq<PlanView>)
    ensures
        queried_in(s + t, plans) == queried_in(s, plans).add(queried_in(t, plans)),
    decreases t.len(),
{
    if t.len() == 0 {
        assert(s + t =~= s);
        assert(queried_in(s, plans).add(Multiset::empty()) =~= queried_in(s, plans));
    } else {
        lemma_queried_concat(s, t.drop_last(), plans);
        assert((s + t).drop_last() =~= s + t.drop_last());
        assert((s + t).last() == t.last());
        let (x, y) = (queried_in(s, plans), queried_in(t.drop_last(), plans));
        if let InstView::Query { plan_id, .. } = t.last() {
            let text = plans[plan_id as int].sql;
            assert(x.add(y).insert(text) =~= x.add(y.insert(text)));
        }
    }
}

/// Blocks with the instructions of one of them replaced, by some that query the
/// same.
pub proof fn lemma_queried_update(
    s: Seq<BlockView>,
    i: int,
    block: BlockView,
    plans: Seq<PlanView>,
)
    requires
        0 <= i < s.len(),
        queried_in(block.insts, plans) == queried_in(s[i].insts, plans),
    ensures
        queried_over(s.update(i, block), plans) == queried_over(s, plans),
    decreases s.len(),
{
    let t = s.drop_last();
    if i == s.len() - 1 {
        assert(s.update(i, block).drop_last() =~= t);
    } else {
        lemma_queried_update(t, i, block, plans);
        assert(s.update(i, block).drop_last() =~= t.update(i, block));
        assert(s.update(i, block).last() == s.last());
    }
}

/// Functions with one of them replaced, by one that queries the same.
pub proof fn lemma_queried_replaced(
    s: Seq<FunctionView>,
    i: int,
    f: FunctionView,
    plans: Seq<PlanView>,
)
    requires
        0 <= i < s.len(),
        queried_over(f.blocks, plans) == queried_over(s[i].blocks, plans),
    ensures
        queried_by(s.update(i, f), plans) == queried_by(s, plans),
    decreases s.len(),
{
    let t = s.drop_last();
    if i == s.len() - 1 {
        assert(s.update(i, f).drop_last() =~= t);
    } else {
        lemma_queried_replaced(t, i, f, plans);
        assert(s.update(i, f).drop_last() =~= t.update(i, f));
        assert(s.update(i, f).last() == s.last());
    }
}

/// Instructions without a query.
pub proof fn lemma_none_queried(s: Seq<InstView>, plans: Seq<PlanView>)
    requires
        forall|i: int| 0 <= i < s.len() ==> !(#[trigger] s[i] is Query),
    ensures
        queried_in(s, plans) == Multiset::<Seq<char>>::empty(),
    decreases s.len(),
{
    if s.len() > 0 {
        let front = s.drop_last();
        assert forall|i: int| 0 <= i < front.len() implies !(#[trigger] front[i] is Query) by {
            assert(front[i] == s[i]);
        }
        lemma_none_queried(front, plans);
        assert(!(s[s.len() - 1] is Query));
    }
}

} // verus!
