//! How machine code runs from block to block.

use crate::ir::{BlockId, BlockView, TerminatorView, ValueId};
use crate::lower::meaning::{reckons, Machine, Site};
use crate::lower::valid::{assigned_in, param_values};
use vstd::prelude::*;

verus! {

/// One pass through a block: the block by its place, and what the values hold when
/// the block is entered and when it ends.
pub struct Visit {
    pub at: int,
    pub before: Machine,
    pub after: Machine,
}

/// Whether a pass through a block changes what the block's instructions assign alone,
/// and the scalars among it are what is computed.
pub open spec fn visits(site: Site, blocks: Seq<BlockView>, v: Visit) -> bool {
    &&& 0 <= v.at < blocks.len()
    &&& forall|x: ValueId|
        !assigned_in(blocks[v.at].insts).contains(x) ==> #[trigger] (v.after.cell)(x) == (
        v.before.cell)(x)
    &&& reckons(site, v.after, blocks[v.at].insts)
}

/// The block that control goes to when a block ends.
pub open spec fn goes_to(t: TerminatorView, m: Machine) -> Option<BlockId> {
    match t {
        TerminatorView::Br { target, .. } => Some(target),
        TerminatorView::CondBr { cond, then_block, else_block } => if (m.cell)(cond) != 0 {
            Some(then_block)
        } else {
            Some(else_block)
        },
        _ => None,
    }
}

/// Whether the second pass comes right after the first: control goes there, and the
/// block's parameters hold what it is handed.
pub open spec fn follows(blocks: Seq<BlockView>, u: Visit, v: Visit) -> bool {
    &&& goes_to(blocks[u.at].terminator, u.after) == Some(blocks[v.at].id)
    &&& blocks[u.at].terminator matches TerminatorView::Br { args, .. } ==> forall|i: int|
        0 <= i < args.len() ==> (v.before.cell)((#[trigger] blocks[v.at].params[i]).0) == (
        u.after.cell)(args[i])
    &&& forall|x: ValueId|
        !param_values(blocks[v.at].params).contains(x) ==> #[trigger] (v.before.cell)(x) == (
        u.after.cell)(x)
}

/// Whether passes are a run of the code from a block on, through blocks behind it.
pub open spec fn walks(site: Site, blocks: Seq<BlockView>, from: int, p: Seq<Visit>) -> bool {
    &&& p.len() > 0
    &&& p[0].at == from
    &&& forall|i: int| 0 <= i < p.len() ==> visits(site, blocks, #[trigger] p[i])
    &&& forall|i: int|
        0 < i < p.len() ==> from < (#[trigger] p[i]).at && follows(blocks, p[i - 1], p[i])
}

/// How many of the first `n` passes are through the block of that number.
pub open spec fn entered(blocks: Seq<BlockView>, p: Seq<Visit>, n: int, id: BlockId) -> int
    decreases n,
{
    if n <= 0 {
        0
    } else {
        entered(blocks, p, n - 1, id) + if blocks[p[n - 1].at].id == id {
            1int
        } else {
            0int
        }
    }
}

} // verus!
