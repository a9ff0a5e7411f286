//! When machine code is well formed, and that lowering keeps it so.
//!
//! A state is [`sound`] when every number in it leads somewhere: operands to
//! values of the function, headings and plans to entries of their tables, calls
//! to functions; when no value is assigned twice and, where a function is done,
//! none but those of type `Unit` is left unassigned; and when the tables hold
//! nothing twice. [`runs`] relates a state to one that lowering reaches from it
//! inside the same function.

use crate::cut::QueryView;
use crate::ir::{
    BlockId, BlockView, FunctionView, HeadingId, InstView, PlanView, ProcTypeView, RelvarView,
    TerminatorView, ValueId,
};
use crate::lower::program::is_call;
use crate::lower::state::{keys_of, EnvView, FrameView, ScopeView, State, StopView, WritePolicy};
use crate::lower::valid::explained::{in_asking_order, tells};
use crate::text::Name;
use vstd::multiset::Multiset;
use vstd::prelude::*;

pub mod blocks;
pub mod explained;
pub mod forms;
pub mod modules;
pub mod patterns;
pub mod primitives;
pub mod steps;
pub mod writes;

verus! {

/// How far the numbers in a function's code may reach.
pub struct Bounds {
    pub values: nat,
    pub blocks: nat,
    pub headings: nat,
    pub plans: nat,
    pub functions: Seq<FunctionView>,
    /// The names of the program's operators.
    pub opers: Seq<Name>,
    /// Whether the database may be asked.
    pub queries: bool,
    /// Whether the database may be written to.
    pub writes: bool,
}

/// Whether the relations in a type have headings.
pub open spec fn type_in(t: ProcTypeView, headings: nat) -> bool
    decreases t,
{
    match t {
        ProcTypeView::Relation(id) => id.0 < headings,
        ProcTypeView::Sequence(elem) => type_in(*elem, headings),
        _ => true,
    }
}

/// Whether all of these are values.
pub open spec fn all_in(vs: Seq<ValueId>, values: nat) -> bool {
    forall|i: int| 0 <= i < vs.len() ==> (#[trigger] vs[i]).0 < values
}

/// Whether all of these are values.
pub open spec fn typed_in(vs: Seq<(ValueId, ProcTypeView)>, values: nat) -> bool {
    forall|i: int| 0 <= i < vs.len() ==> (#[trigger] vs[i]).0.0 < values
}

/// Whether all of these are values.
pub open spec fn named_in(vs: Seq<(Name, ValueId)>, values: nat) -> bool {
    forall|i: int| 0 <= i < vs.len() ==> (#[trigger] vs[i]).1.0 < values
}

/// Whether all of these are values with headings.
pub open spec fn headed_in(vs: Seq<(ValueId, HeadingId)>, b: Bounds) -> bool {
    forall|i: int|
        0 <= i < vs.len() ==> (#[trigger] vs[i]).0.0 < b.values && vs[i].1.0 < b.headings
}

/// Whether a function has that symbol.
pub open spec fn has_symbol(functions: Seq<FunctionView>, symbol: Name) -> bool {
    exists|i: int| 0 <= i < functions.len() && (#[trigger] functions[i]).linkage_name == symbol
}

/// Whether something can be called by that symbol.
pub open spec fn callable(b: Bounds, symbol: Name) -> bool {
    has_symbol(b.functions, symbol) || b.opers.contains(symbol)
}

/// Whether the numbers in an instruction stay within the bounds.
pub open spec fn inst_in(i: InstView, b: Bounds) -> bool {
    match i {
        InstView::Const { dst, .. } => dst.0 < b.values,
        InstView::Call { dst, callee, args, .. } => {
            &&& dst matches Some(d) ==> d.0 < b.values
            &&& callable(b, callee)
            &&& all_in(args, b.values)
        },
        InstView::TupleLit { dst, fields, .. } => dst.0 < b.values && named_in(fields, b.values),
        InstView::TupleField { dst, src, .. } => dst.0 < b.values && src.0 < b.values,
        InstView::TupleBox { dst, src, heading_id } => {
            dst.0 < b.values && src.0 < b.values && heading_id.0 < b.headings
        },
        InstView::TupleUnbox { dst, src, heading_id } => {
            dst.0 < b.values && src.0 < b.values && heading_id.0 < b.headings
        },
        InstView::RelationLit { dst, tuples, heading_id } => {
            dst.0 < b.values && all_in(tuples, b.values) && heading_id.0 < b.headings
        },
        InstView::SequenceLit { dst, elements, heading_id } => {
            dst.0 < b.values && all_in(elements, b.values) && heading_id.0 < b.headings
        },
        InstView::Retain { src } => src.0 < b.values,
        InstView::Release { src } => src.0 < b.values,
        InstView::WriteRelation { rel, heading_id } => {
            rel.0 < b.values && heading_id.0 < b.headings
        },
        InstView::ScalarOp { dst, lhs, rhs, .. } => {
            dst.0 < b.values && lhs.0 < b.values && rhs.0 < b.values
        },
        InstView::CharToText { dst, src } => dst.0 < b.values && src.0 < b.values,
        InstView::AttrLoad { dst, src, .. } => dst.0 < b.values && src.0 < b.values,
        InstView::AttrStore { record, value, .. } => record.0 < b.values && value.0 < b.values,
        InstView::Where { dst, src, predicate_linkage, heading_id } => {
            &&& dst.0 < b.values && src.0 < b.values && heading_id.0 < b.headings
            &&& has_symbol(b.functions, predicate_linkage)
        },
        InstView::Extend { dst, src, helper_linkage, src_heading_id, result_heading_id } => {
            &&& dst.0 < b.values && src.0 < b.values
            &&& src_heading_id.0 < b.headings && result_heading_id.0 < b.headings
            &&& has_symbol(b.functions, helper_linkage)
        },
        InstView::Project { dst, src, src_heading_id, result_heading_id } => {
            &&& dst.0 < b.values && src.0 < b.values
            &&& src_heading_id.0 < b.headings && result_heading_id.0 < b.headings
        },
        InstView::Rename { dst, src, src_heading_id, result_heading_id, .. } => {
            &&& dst.0 < b.values && src.0 < b.values
            &&& src_heading_id.0 < b.headings && result_heading_id.0 < b.headings
        },
        InstView::Load { dst, src, heading_id, .. } => {
            dst.0 < b.values && src.0 < b.values && heading_id.0 < b.headings
        },
        InstView::Collect { dst, src, heading_id } => {
            dst.0 < b.values && src.0 < b.values && heading_id.0 < b.headings
        },
        InstView::Restructure { dst, src, src_heading_id, result_heading_id } => {
            &&& dst.0 < b.values && src.0 < b.values
            &&& src_heading_id.0 < b.headings && result_heading_id.0 < b.headings
        },
        InstView::Join {
            dst,
            lhs,
            rhs,
            lhs_heading_id,
            rhs_heading_id,
            result_heading_id,
        } => {
            &&& dst.0 < b.values && lhs.0 < b.values && rhs.0 < b.values
            &&& lhs_heading_id.0 < b.headings && rhs_heading_id.0 < b.headings
            &&& result_heading_id.0 < b.headings
        },
        InstView::Union { dst, lhs, rhs, heading_id } => {
            dst.0 < b.values && lhs.0 < b.values && rhs.0 < b.values && heading_id.0 < b.headings
        },
        InstView::Minus { dst, lhs, rhs, heading_id } => {
            dst.0 < b.values && lhs.0 < b.values && rhs.0 < b.values && heading_id.0 < b.headings
        },
        InstView::Gate { dst, src, cond, heading_id } => {
            dst.0 < b.values && src.0 < b.values && cond.0 < b.values && heading_id.0 < b.headings
        },
        InstView::Otherwise { dst, primary, fallback } => {
            dst.0 < b.values && primary.0 < b.values && fallback.0 < b.values
        },
        InstView::TClose { dst, src, heading_id } => {
            dst.0 < b.values && src.0 < b.values && heading_id.0 < b.headings
        },
        InstView::RelCompare { dst, lhs, rhs, heading_id, .. } => {
            dst.0 < b.values && lhs.0 < b.values && rhs.0 < b.values && heading_id.0 < b.headings
        },
        InstView::Extract { dst, src, heading_id } => {
            dst.0 < b.values && src.0 < b.values && heading_id.0 < b.headings
        },
        InstView::RelvarSlotInit { heading_id, .. } => heading_id.0 < b.headings,
        InstView::RelvarSlotRelease { .. } => true,
        InstView::RelvarRead { dst, heading_id, .. } => {
            dst.0 < b.values && heading_id.0 < b.headings
        },
        InstView::PrivateRelvarSlotInit { heading_id, .. } => heading_id.0 < b.headings,
        InstView::RelvarSlotStore { value, .. } => value.0 < b.values,
        InstView::RegisterDatabase => true,
        InstView::RegisterPlan { plan_id } => plan_id < b.plans,
        InstView::Query { dst, plan_id, params, rels, heading_id } => {
            &&& b.queries
            &&& dst.0 < b.values && plan_id < b.plans && heading_id.0 < b.headings
            &&& typed_in(params, b.values)
            &&& headed_in(rels, b)
        },
        InstView::Dml { plan_id, params } => {
            b.writes && plan_id < b.plans && typed_in(params, b.values)
        },
        InstView::InsertFrom { plan_id, src, heading_id } => {
            b.writes && plan_id < b.plans && src.0 < b.values && heading_id.0 < b.headings
        },
    }
}

/// Whether the numbers in the end of a block stay within the bounds.
pub open spec fn terminator_in(t: TerminatorView, b: Bounds) -> bool {
    match t {
        TerminatorView::Return(v) => v matches Some(v) ==> v.0 < b.values,
        TerminatorView::CondBr { cond, then_block, else_block } => {
            cond.0 < b.values && then_block.0 < b.blocks && else_block.0 < b.blocks
        },
        TerminatorView::Br { target, args } => target.0 < b.blocks && all_in(args, b.values),
        TerminatorView::Unreachable => true,
    }
}

/// Whether the numbers in instructions stay within the bounds.
pub open spec fn insts_in(s: Seq<InstView>, b: Bounds) -> bool {
    forall|i: int| 0 <= i < s.len() ==> inst_in(#[trigger] s[i], b)
}

/// Whether the numbers in a block stay within the bounds.
pub open spec fn block_in(block: BlockView, b: Bounds) -> bool {
    &&& typed_in(block.params, b.values)
    &&& insts_in(block.insts, b)
    &&& terminator_in(block.terminator, b)
}

/// Whether the numbers in blocks stay within the bounds.
pub open spec fn blocks_in(s: Seq<BlockView>, b: Bounds) -> bool {
    forall|i: int| 0 <= i < s.len() ==> block_in(#[trigger] s[i], b)
}

/// The value that an instruction assigns.
pub open spec fn assigned_by(i: InstView) -> Option<ValueId> {
    match i {
        InstView::Const { dst, .. } => Some(dst),
        InstView::Call { dst, .. } => dst,
        InstView::TupleLit { dst, .. } => Some(dst),
        InstView::TupleField { dst, .. } => Some(dst),
        InstView::TupleBox { dst, .. } => Some(dst),
        InstView::TupleUnbox { dst, .. } => Some(dst),
        InstView::RelationLit { dst, .. } => Some(dst),
        InstView::SequenceLit { dst, .. } => Some(dst),
        InstView::ScalarOp { dst, .. } => Some(dst),
        InstView::CharToText { dst, .. } => Some(dst),
        InstView::AttrLoad { dst, .. } => Some(dst),
        InstView::Where { dst, .. } => Some(dst),
        InstView::Extend { dst, .. } => Some(dst),
        InstView::Project { dst, .. } => Some(dst),
        InstView::Rename { dst, .. } => Some(dst),
        InstView::Load { dst, .. } => Some(dst),
        InstView::Collect { dst, .. } => Some(dst),
        InstView::Restructure { dst, .. } => Some(dst),
        InstView::Join { dst, .. } => Some(dst),
        InstView::Union { dst, .. } => Some(dst),
        InstView::Minus { dst, .. } => Some(dst),
        InstView::Gate { dst, .. } => Some(dst),
        InstView::Otherwise { dst, .. } => Some(dst),
        InstView::TClose { dst, .. } => Some(dst),
        InstView::RelCompare { dst, .. } => Some(dst),
        InstView::Extract { dst, .. } => Some(dst),
        InstView::RelvarRead { dst, .. } => Some(dst),
        InstView::Query { dst, .. } => Some(dst),
        _ => None,
    }
}

/// The values that instructions assign, in order.
pub open spec fn assigned_in(s: Seq<InstView>) -> Seq<ValueId>
    decreases s.len(),
{
    if s.len() == 0 {
        Seq::empty()
    } else {
        let before = assigned_in(s.drop_last());
        match assigned_by(s.last()) {
            Some(v) => before.push(v),
            None => before,
        }
    }
}

/// The values of block parameters.
pub open spec fn param_values(params: Seq<(ValueId, ProcTypeView)>) -> Seq<ValueId> {
    Seq::new(params.len(), |i: int| params[i].0)
}

/// The values that blocks assign, in order: each block's parameters, then what
/// its instructions assign.
pub open spec fn assigned_over(s: Seq<BlockView>) -> Seq<ValueId>
    decreases s.len(),
{
    if s.len() == 0 {
        Seq::empty()
    } else {
        assigned_over(s.drop_last()) + param_values(s.last().params) + assigned_in(s.last().insts)
    }
}

/// The numbers of blocks.
pub open spec fn block_ids(s: Seq<BlockView>) -> Multiset<u32>
    decreases s.len(),
{
    if s.len() == 0 {
        Multiset::empty()
    } else {
        block_ids(s.drop_last()).insert(s.last().id.0)
    }
}

/// Each number from `lo` on and before `hi`, once.
pub open spec fn numbers(lo: nat, hi: nat) -> Multiset<u32>
    decreases hi,
{
    if hi <= lo {
        Multiset::empty()
    } else {
        numbers(lo, (hi - 1) as nat).insert((hi - 1) as u32)
    }
}

/// Whether the end of a block leads to that one.
pub open spec fn leads(t: TerminatorView, id: BlockId) -> bool {
    match t {
        TerminatorView::CondBr { then_block, else_block, .. } => {
            then_block == id || else_block == id
        },
        TerminatorView::Br { target, .. } => target == id,
        _ => false,
    }
}

/// Whether one of the first `n` blocks leads to that one.
pub open spec fn led_to(s: Seq<BlockView>, n: int, id: BlockId) -> bool {
    exists|j: int| 0 <= j < n && leads((#[trigger] s[j]).terminator, id)
}

/// Whether conditional branches lead to later blocks alone.
pub open spec fn forward(s: Seq<BlockView>) -> bool {
    forall|i: int, j: int|
        0 <= j <= i < s.len() && (#[trigger] s[i]).terminator is CondBr ==> !leads(
            s[i].terminator,
            (#[trigger] s[j]).id,
        )
}

/// Whether no block leads to the entry block.
pub open spec fn entered_once(s: Seq<BlockView>) -> bool {
    forall|i: int| 0 <= i < s.len() ==> !leads((#[trigger] s[i]).terminator, BlockId(0))
}

/// Whether the entry block comes first and no block leads to it, before every
/// other block comes one that leads to it, and conditional branches lead to later
/// blocks alone.
pub open spec fn in_order(s: Seq<BlockView>) -> bool {
    &&& s.len() > 0 ==> s[0].id.0 == 0
    &&& entered_once(s)
    &&& forall|i: int| 0 < i < s.len() ==> led_to(s, i, (#[trigger] s[i]).id)
    &&& forward(s)
}

/// Whether the end of a block, if it leads to that one, hands it `n` values.
pub open spec fn hands(t: TerminatorView, id: BlockId, n: nat) -> bool {
    match t {
        TerminatorView::CondBr { .. } => leads(t, id) ==> n == 0,
        TerminatorView::Br { args, .. } => leads(t, id) ==> n == args.len(),
        _ => true,
    }
}

/// Whether the entry block has no parameters, and every branch hands the block
/// as many values as it has.
pub open spec fn all_handed(s: Seq<BlockView>) -> bool {
    &&& s.len() > 0 ==> s[0].params.len() == 0
    &&& forall|i: int, j: int|
        0 <= i < s.len() && 0 <= j < s.len() ==> hands(
            (#[trigger] s[i]).terminator,
            (#[trigger] s[j]).id,
            s[j].params.len(),
        )
}

/// Whether blocks are the body of a function: their numbers are the first
/// ones, each once; what they refer to is there; no value is assigned twice;
/// they stand in order; branches hand over what blocks take.
pub open spec fn body_ok(blocks: Seq<BlockView>, b: Bounds) -> bool {
    &&& block_ids(blocks) == numbers(0, blocks.len())
    &&& blocks_in(blocks, Bounds { blocks: blocks.len(), ..b })
    &&& assigned_over(blocks).no_duplicates()
    &&& in_order(blocks)
    &&& all_handed(blocks)
}

/// The values that an instruction reads.
pub open spec fn operands(i: InstView) -> Seq<ValueId> {
    match i {
        InstView::Call { args, .. } => args,
        InstView::TupleLit { fields, .. } => Seq::new(fields.len(), |j: int| fields[j].1),
        InstView::TupleField { src, .. } => seq![src],
        InstView::TupleBox { src, .. } => seq![src],
        InstView::TupleUnbox { src, .. } => seq![src],
        InstView::RelationLit { tuples, .. } => tuples,
        InstView::SequenceLit { elements, .. } => elements,
        InstView::Retain { src } => seq![src],
        InstView::Release { src } => seq![src],
        InstView::WriteRelation { rel, .. } => seq![rel],
        InstView::ScalarOp { lhs, rhs, .. } => seq![lhs, rhs],
        InstView::CharToText { src, .. } => seq![src],
        InstView::AttrLoad { src, .. } => seq![src],
        InstView::AttrStore { record, value, .. } => seq![record, value],
        InstView::Where { src, .. } => seq![src],
        InstView::Extend { src, .. } => seq![src],
        InstView::Project { src, .. } => seq![src],
        InstView::Rename { src, .. } => seq![src],
        InstView::Load { src, .. } => seq![src],
        InstView::Collect { src, .. } => seq![src],
        InstView::Restructure { src, .. } => seq![src],
        InstView::Join { lhs, rhs, .. } => seq![lhs, rhs],
        InstView::Union { lhs, rhs, .. } => seq![lhs, rhs],
        InstView::Minus { lhs, rhs, .. } => seq![lhs, rhs],
        InstView::Gate { src, cond, .. } => seq![src, cond],
        InstView::Otherwise { primary, fallback, .. } => seq![primary, fallback],
        InstView::TClose { src, .. } => seq![src],
        InstView::RelCompare { lhs, rhs, .. } => seq![lhs, rhs],
        InstView::Extract { src, .. } => seq![src],
        InstView::RelvarSlotStore { value, .. } => seq![value],
        InstView::Query { params, rels, .. } => param_values(params) + Seq::new(
            rels.len(),
            |j: int| rels[j].0,
        ),
        InstView::Dml { params, .. } => param_values(params),
        InstView::InsertFrom { src, .. } => seq![src],
        InstView::Const { .. } => Seq::empty(),
        InstView::RelvarSlotInit { .. } => Seq::empty(),
        InstView::RelvarSlotRelease { .. } => Seq::empty(),
        InstView::RelvarRead { .. } => Seq::empty(),
        InstView::PrivateRelvarSlotInit { .. } => Seq::empty(),
        InstView::RegisterDatabase => Seq::empty(),
        InstView::RegisterPlan { .. } => Seq::empty(),
    }
}

/// The values that the end of a block reads.
pub open spec fn outgoing(t: TerminatorView) -> Seq<ValueId> {
    match t {
        TerminatorView::Return(Some(v)) => seq![v],
        TerminatorView::CondBr { cond, .. } => seq![cond],
        TerminatorView::Br { args, .. } => args,
        _ => Seq::empty(),
    }
}

/// Whether a value of a function is given: it is one of its `params` parameters,
/// a parameter of a block or assigned by an instruction; or its type is `Unit`, of
/// which no value is held.
pub open spec fn is_given(
    v: ValueId,
    params: nat,
    blocks: Seq<BlockView>,
    types: Seq<ProcTypeView>,
) -> bool {
    ||| v.0 < params
    ||| assigned_over(blocks).contains(v)
    ||| v.0 < types.len() && types[v.0 as int] is Unit
}

/// Whether every value of a function is given.
pub open spec fn all_given(params: nat, blocks: Seq<BlockView>, types: Seq<ProcTypeView>) -> bool {
    forall|v: ValueId| v.0 < types.len() ==> #[trigger] is_given(v, params, blocks, types)
}

/// Whether all of these are given.
pub open spec fn are_given(
    vs: Seq<ValueId>,
    params: nat,
    blocks: Seq<BlockView>,
    types: Seq<ProcTypeView>,
) -> bool {
    forall|i: int| 0 <= i < vs.len() ==> is_given(#[trigger] vs[i], params, blocks, types)
}

/// Whether what a function's code reads is given.
pub open spec fn reads_given(f: FunctionView, types: Seq<ProcTypeView>) -> bool {
    &&& forall|i: int, j: int|
        0 <= i < f.blocks.len() && 0 <= j < f.blocks[i].insts.len() ==> are_given(
            operands(#[trigger] f.blocks[i].insts[j]),
            f.params.len(),
            f.blocks,
            types,
        )
    &&& forall|i: int|
        0 <= i < f.blocks.len() ==> are_given(
            outgoing((#[trigger] f.blocks[i]).terminator),
            f.params.len(),
            f.blocks,
            types,
        )
}

/// Whether a function is well formed, with values of these types.
pub open spec fn function_ok(f: FunctionView, types: Seq<ProcTypeView>, b: Bounds) -> bool {
    f.blocks.len() > 0 ==> {
        &&& body_ok(f.blocks, Bounds { values: types.len(), ..b })
        &&& all_given(f.params.len(), f.blocks, types)
    }
}

/// Whether code begins with the call that starts the run-time library and ends
/// with the call that ends it, returning nothing.
pub open spec fn framed(s: Seq<BlockView>) -> bool {
    &&& s.len() > 0
    &&& s[0].insts.len() > 0 && is_call(s[0].insts[0], "coddl_runtime_init"@)
    &&& s.last().insts.len() > 0 && is_call(s.last().insts.last(), "coddl_runtime_shutdown"@)
    &&& s.last().terminator == TerminatorView::Return(None)
}

/// Whether the code of `main` starts and ends the run-time library.
pub open spec fn main_framed(s: Seq<FunctionView>) -> bool {
    forall|i: int| 0 <= i < s.len() && (#[trigger] s[i]).name == "main"@ ==> framed(s[i].blocks)
}

/// Whether a function begins or commits a transaction.
pub open spec fn is_bracket(name: Name) -> bool {
    name == "coddl_begin_tx"@ || name == "coddl_commit_tx"@
}

/// Whether, without a plan, only operators of the program have the names of the
/// functions that begin and commit a transaction.
pub open spec fn unbracketed(env: EnvView, s: Seq<FunctionView>) -> bool {
    env.planned || forall|i: int|
        0 <= i < s.len() && is_bracket((#[trigger] s[i]).linkage_name) ==> s[i].blocks.len() > 0
            && keys_of(env.opers).contains(s[i].linkage_name)
}

/// Whether functions are well formed.
pub open spec fn functions_ok(
    s: Seq<FunctionView>,
    types: Seq<Seq<ProcTypeView>>,
    b: Bounds,
) -> bool {
    &&& types.len() == s.len()
    &&& forall|i: int| 0 <= i < s.len() ==> function_ok(#[trigger] s[i], types[i], b)
}

/// Whether the plans are numbered by their places and their rows have headings.
pub open spec fn plans_ok(plans: Seq<PlanView>, headings: nat) -> bool {
    forall|i: int|
        0 <= i < plans.len() ==> (#[trigger] plans[i]).plan_id == i
            && plans[i].result_heading_id.0 < headings
}

/// Whether a statement of that key and text is among those supplied.
pub open spec fn is_answer(answers: Seq<Option<QueryView>>, key: u64, text: Seq<char>) -> bool {
    exists|i: int|
        0 <= i < answers.len() && (#[trigger] answers[i] matches Some(q) && q.plan_key == key
            && q.text == text)
}

/// Whether the plans are statements that were supplied.
pub open spec fn plans_supplied(
    plans: Seq<PlanView>,
    keys: Seq<u64>,
    answers: Seq<Option<QueryView>>,
) -> bool {
    forall|i: int|
        0 <= i < plans.len() ==> is_answer(answers, keys[i], (#[trigger] plans[i]).sql)
}

/// The symbol under which a function that is defined elsewhere is declared.
pub open spec fn symbol_for(name: Name) -> Name {
    if name == "write_line"@ {
        "coddl_write_line"@
    } else if name == "read_line"@ {
        "coddl_read_line"@
    } else if name == "cardinality"@ {
        "coddl_rc_length"@
    } else if name == "int_to_text"@ {
        "coddl_int_to_text"@
    } else if name == "bool_to_text"@ {
        "coddl_bool_to_text"@
    } else {
        name
    }
}

/// The names of the functions that are defined elsewhere.
pub open spec fn declared(functions: Seq<FunctionView>) -> Seq<Name>
    decreases functions.len(),
{
    if functions.len() == 0 {
        Seq::empty()
    } else {
        let before = declared(functions.drop_last());
        if functions.last().blocks.len() == 0 {
            before.push(functions.last().name)
        } else {
            before
        }
    }
}

/// Whether what was declared is there.
pub open spec fn declared_ok(seen: Seq<Name>, functions: Seq<FunctionView>) -> bool {
    forall|i: int| 0 <= i < seen.len() ==> has_symbol(functions, symbol_for(#[trigger] seen[i]))
}

/// Whether the relvars and operators that lowering knows have headings.
pub open spec fn env_ok(env: EnvView, headings: nat) -> bool {
    &&& forall|i: int|
        0 <= i < env.publics.len() ==> (#[trigger] env.publics[i]).0.heading_id.0 < headings
    &&& forall|i: int| 0 <= i < env.privates.len() ==> (#[trigger] env.privates[i]).1.0 < headings
    &&& forall|i: int| 0 <= i < env.opers.len() ==> type_in((#[trigger] env.opers[i]).1.1, 0)
}

/// Whether the types of values have headings.
pub open spec fn types_ok(types: Seq<ProcTypeView>, headings: nat) -> bool {
    forall|i: int| 0 <= i < types.len() ==> type_in(#[trigger] types[i], headings)
}

/// Whether a layer binds names to values.
pub open spec fn scope_in(s: ScopeView, values: nat) -> bool {
    forall|j: int| 0 <= j < s.locals.len() ==> (#[trigger] s.locals[j]).1.0.0 < values
}

/// Whether layers bind names to values.
pub open spec fn scopes_in(s: Seq<ScopeView>, values: nat) -> bool {
    forall|i: int| 0 <= i < s.len() ==> scope_in(#[trigger] s[i], values)
}

/// The values that the code of a function assigns so far.
pub open spec fn assigned(f: FrameView) -> Seq<ValueId> {
    assigned_over(f.blocks) + param_values(f.params) + assigned_in(f.insts)
}

/// Whether the blocks so far stand in order: the entry block first, and before
/// every other block, the current one too, one that leads to it; and whether
/// their numbers have been handed out.
pub open spec fn linked(f: FrameView) -> bool {
    &&& entered_once(f.blocks) ==> forward(f.blocks)
    &&& f.current.0 == 0 || f.current.0 < f.next_block
    &&& forall|i: int|
        0 <= i < f.blocks.len() ==> (#[trigger] f.blocks[i]).id.0 == 0 || f.blocks[i].id.0
            < f.next_block
    &&& f.blocks.len() > 0 ==> f.blocks[0].id.0 == 0
    &&& forall|i: int|
        0 <= i < f.blocks.len() ==> (#[trigger] f.blocks[i]).id.0 == 0 || led_to(
            f.blocks,
            i,
            f.blocks[i].id,
        )
    &&& f.current.0 == 0 || led_to(f.blocks, f.blocks.len() as int, f.current)
}

/// Whether a function that is being built is well formed so far.
pub open spec fn frame_ok(f: FrameView, b: Bounds) -> bool {
    &&& linked(f)
    &&& types_ok(f.types, b.headings)
    &&& scopes_in(f.scopes, b.values)
    &&& all_in(f.owned, b.values)
    &&& all_in(f.deferred, b.values)
    &&& typed_in(f.params, b.values)
    &&& insts_in(f.insts, b)
    &&& blocks_in(f.blocks, b)
    &&& assigned(f).no_duplicates()
    &&& all_in(assigned(f), b.values)
}

/// Whether one of the public relvars can be written to.
pub open spec fn any_writable(publics: Seq<(RelvarView, WritePolicy)>) -> bool {
    exists|i: int| 0 <= i < publics.len() && (#[trigger] publics[i]).1 == WritePolicy::ReadWrite
}

/// The bounds of the function that is being built.
pub open spec fn bounds(st: State) -> Bounds {
    Bounds {
        values: st.frame.types.len(),
        blocks: st.frame.next_block as nat,
        headings: st.headings.len(),
        plans: st.plans.len(),
        functions: st.functions,
        opers: keys_of(st.env.opers),
        queries: st.env.pushes,
        writes: st.env.pushes && any_writable(st.env.publics),
    }
}

/// Whether the tables hold nothing twice and refer to what is there.
pub open spec fn tables_ok(st: State) -> bool {
    &&& st.headings.no_duplicates()
    &&& plans_ok(st.plans, st.headings.len())
    &&& st.plan_keys.no_duplicates()
    &&& st.plan_keys.len() == st.plans.len()
    &&& plans_supplied(st.plans, st.plan_keys, st.env.answers)
    &&& st.plans.len() > 0 ==> st.env.pushes
    &&& env_ok(st.env, st.headings.len())
    &&& declared_ok(st.seen, st.functions)
    &&& declared(st.functions) == st.seen
    &&& st.seen.no_duplicates()
    &&& st.asked <= st.env.answers.len()
}

/// Whether a state is well formed, unless lowering has stopped; it stops for a
/// statement only when all that were supplied have been used.
#[verifier::opaque]
pub open spec fn sound(st: State) -> bool {
    &&& st.stop is None ==> {
        &&& tables_ok(st)
        &&& functions_ok(st.functions, st.value_types, bounds(st))
        &&& main_framed(st.functions)
        &&& unbracketed(st.env, st.functions)
        &&& frame_ok(st.frame, bounds(st))
        &&& in_asking_order(st.relir, st.env.answers, st.asked)
    }
    &&& st.stop matches Some(StopView::Ask(_)) ==> st.asked >= st.env.answers.len()
}

/// Whether the database may be asked, unless lowering has stopped.
pub open spec fn may_query(st: State) -> bool {
    st.stop is Some || bounds(st).queries
}

/// Whether the database may be written to, unless lowering has stopped.
pub open spec fn may_write(st: State) -> bool {
    st.stop is Some || bounds(st).writes
}

/// Whether a statement was supplied, unless lowering has stopped.
pub open spec fn is_supplied(st: State, q: QueryView) -> bool {
    st.stop is Some || is_answer(st.env.answers, q.plan_key, q.text)
}

/// Whether a value exists, unless lowering has stopped.
pub open spec fn is_value(st: State, v: ValueId) -> bool {
    st.stop is Some || v.0 < st.frame.types.len()
}

/// Whether values exist, unless lowering has stopped.
pub open spec fn are_values(st: State, vs: Seq<ValueId>) -> bool {
    st.stop is Some || all_in(vs, st.frame.types.len())
}

/// Whether a heading's number is in the table, unless lowering has stopped.
pub open spec fn is_heading(st: State, id: HeadingId) -> bool {
    st.stop is Some || id.0 < st.headings.len()
}

/// Whether a block leads to that one, or it is the entry block, unless lowering
/// has stopped.
pub open spec fn is_target(st: State, id: BlockId) -> bool {
    st.stop is Some || id.0 == 0 || led_to(st.frame.blocks, st.frame.blocks.len() as int, id)
}

/// Whether a block's number has been handed out, unless lowering has stopped.
pub open spec fn is_block(st: State, id: BlockId) -> bool {
    st.stop is Some || id.0 < st.frame.next_block
}

/// Whether a value has not been assigned, unless lowering has stopped.
#[verifier::opaque]
pub open spec fn unassigned(st: State, v: ValueId) -> bool {
    st.stop is Some || !assigned(st.frame).contains(v)
}

/// Whether `s` begins with `t`.
pub open spec fn begins<A>(s: Seq<A>, t: Seq<A>) -> bool {
    &&& t.len() <= s.len()
    &&& forall|i: int| 0 <= i < t.len() ==> s[i] == #[trigger] t[i]
}

/// Whether the tables of one state go on those of another.
#[verifier::opaque]
pub open spec fn grows(a: State, b: State) -> bool {
    &&& b.env == a.env
    &&& a.stop is Some ==> b.stop == a.stop
    &&& begins(b.headings, a.headings)
    &&& begins(b.plans, a.plans)
    &&& begins(b.functions, a.functions)
    &&& begins(b.diagnostics, a.diagnostics)
    &&& begins(b.relir, a.relir)
    &&& a.asked <= b.asked
}

/// The numbers of the blocks of the function so far, with the current one.
pub open spec fn tally(f: FrameView) -> Multiset<u32> {
    block_ids(f.blocks).insert(f.current.0)
}

/// Whether the end of a block leads to blocks of these parameter counts, and
/// hands them so many values.
pub open spec fn meets(t: TerminatorView, counts: Map<u32, nat>) -> bool {
    match t {
        TerminatorView::CondBr { then_block, else_block, .. } => {
            &&& counts.contains_key(then_block.0) && counts[then_block.0] == 0
            &&& counts.contains_key(else_block.0) && counts[else_block.0] == 0
        },
        TerminatorView::Br { target, args } => {
            counts.contains_key(target.0) && counts[target.0] == args.len()
        },
        _ => true,
    }
}

/// Whether block `i` is the one that was current in `a`, or one of these
/// parameter counts.
pub open spec fn counted(a: FrameView, s: Seq<BlockView>, i: int, counts: Map<u32, nat>) -> bool {
    let block = s[i];
    ||| i == a.blocks.len() && block.id == a.current && block.params.len() == a.params.len()
    ||| counts.contains_key(block.id.0) && counts[block.id.0] == block.params.len()
}

/// Whether the blocks since `a` were handed out since `a`, have these parameter
/// counts and lead to each other alone.
pub open spec fn shaped(a: FrameView, b: FrameView, counts: Map<u32, nat>) -> bool {
    &&& forall|k: u32| #[trigger]
        counts.contains_key(k) ==> a.next_block <= k < b.next_block
    &&& a.blocks.len() <= b.blocks.len()
    &&& forall|i: int|
        a.blocks.len() <= i < b.blocks.len() ==> meets((#[trigger] b.blocks[i]).terminator, counts)
            && counted(a, b.blocks, i, counts)
    &&& if b.blocks.len() == a.blocks.len() {
        b.current == a.current && b.params.len() == a.params.len()
    } else {
        counts.contains_key(b.current.0) && counts[b.current.0] == b.params.len()
    }
}

/// Whether the blocks since `a` fit together.
#[verifier::opaque]
pub open spec fn in_shape(a: FrameView, b: FrameView) -> bool {
    exists|counts: Map<u32, nat>| #[trigger] shaped(a, b, counts)
}

/// Whether a value is assigned, or its type is `Unit`.
pub open spec fn is_set(f: FrameView, v: ValueId) -> bool {
    f.types[v.0 as int] is Unit || assigned(f).contains(v)
}

/// Whether what was assigned stays so, and the new values are assigned or of type
/// `Unit`.
#[verifier::opaque]
pub open spec fn filled(a: FrameView, b: FrameView) -> bool {
    &&& forall|v: ValueId| #[trigger] assigned(a).contains(v) ==> assigned(b).contains(v)
    &&& forall|v: ValueId| a.types.len() <= v.0 < b.types.len() ==> #[trigger] is_set(b, v)
}

/// Without new values everything is assigned.
pub broadcast proof fn lemma_same_filled(a: FrameView, b: FrameView)
    requires
        b.blocks == a.blocks,
        b.params == a.params,
        b.insts == a.insts,
        b.types == a.types,
    ensures
        #[trigger] filled(a, b),
{
    reveal(filled);
}

/// Without new blocks everything fits.
pub broadcast proof fn lemma_same_shape(a: FrameView, b: FrameView)
    requires
        b.blocks == a.blocks,
        b.current == a.current,
        b.params == a.params,
        a.next_block <= b.next_block,
    ensures
        #[trigger] in_shape(a, b),
{
    reveal(in_shape);
    assert(shaped(a, b, Map::empty()));
}

/// Whether the code of one frame goes on that of another, in the same block or
/// in new ones behind it.
pub open spec fn goes_on(a: FrameView, b: FrameView) -> bool {
    &&& begins(b.blocks, a.blocks)
    &&& if b.blocks.len() > a.blocks.len() {
        begins(b.blocks[a.blocks.len() as int].insts, a.insts)
    } else {
        begins(b.insts, a.insts)
    }
}

/// Whether a state is reached from another inside the same function: the
/// tables go on and, unless lowering has stopped, so do the types and the
/// code, every block that was begun since was ended but for the current one,
/// the new blocks fit together, the new queries are those of the new pushed
/// expressions, and the new values are assigned.
#[verifier::opaque]
pub open spec fn runs(a: State, b: State) -> bool {
    &&& grows(a, b)
    &&& b.stop is None ==> {
        &&& begins(b.frame.types, a.frame.types)
        &&& goes_on(a.frame, b.frame)
        &&& a.frame.next_block <= b.frame.next_block
        &&& tally(b.frame) == tally(a.frame).add(
            numbers(a.frame.next_block as nat, b.frame.next_block as nat),
        )
        &&& in_shape(a.frame, b.frame)
        &&& tells(a, b)
        &&& b.frame.param_ids == a.frame.param_ids
        &&& filled(a.frame, b.frame)
    }
}

} // verus!
