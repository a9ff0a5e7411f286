//! What programs and machine code mean.
//!
//! Values are told apart and ordered by integers that stand for them, as in
//! [`crate::rel_meaning`]: an integer by itself, a truth value by one or zero, a text
//! by the code of its bytes, and a character as the text that it makes.

use crate::ast::{BinaryOp, Expr, ExprKind, Literal};
use crate::ir::{ConstView, FunctionView, InstView, ScalarOp, TerminatorView, ValueId};
use crate::layout::record_bytes;
use crate::literals::{char_value, integer_value, string_value};
use crate::rel_meaning::{narrow, Row};
use crate::text::Name;
use crate::types::{attr_names, HeadingView};
use vstd::prelude::*;
use vstd::utf8::encode_utf8;

verus! {

/// How texts are coded.
pub struct Codes {
    /// The code of a text, by its bytes.
    pub text: spec_fn(Seq<u8>) -> int,
    /// The code of two texts one behind the other.
    pub concat: spec_fn(int, int) -> int,
}

/// The integer of a truth value.
pub open spec fn bit(b: bool) -> int {
    if b {
        1
    } else {
        0
    }
}

/// The quotient of two integers, rounded towards zero.
pub open spec fn quotient(a: int, b: int) -> int {
    let n = if a < 0 {
        -a
    } else {
        a
    };
    let d = if b < 0 {
        -b
    } else {
        b
    };
    if (a < 0) == (b < 0) {
        n / d
    } else {
        -(n / d)
    }
}

/// What a binary operator of the language makes of two values.
pub open spec fn binary_value(c: Codes, op: BinaryOp, a: int, b: int) -> int {
    match op {
        BinaryOp::Eq => bit(a == b),
        BinaryOp::NotEq => bit(a != b),
        BinaryOp::Lt => bit(a < b),
        BinaryOp::Gt => bit(a > b),
        BinaryOp::LtEq => bit(a <= b),
        BinaryOp::GtEq => bit(a >= b),
        BinaryOp::And => bit(a != 0 && b != 0),
        BinaryOp::Or => bit(a != 0 || b != 0),
        BinaryOp::Add => a + b,
        BinaryOp::Sub => a - b,
        BinaryOp::Mul => a * b,
        BinaryOp::Div => quotient(a, b),
        BinaryOp::Concat => (c.concat)(a, b),
        _ => 0,
    }
}

/// Whether an operator is one on scalars.
pub open spec fn is_scalar_op(op: BinaryOp) -> bool {
    !(op == BinaryOp::Where || op == BinaryOp::Join || op == BinaryOp::Times || op
        == BinaryOp::Compose || op == BinaryOp::Intersect || op == BinaryOp::Union || op
        == BinaryOp::Minus)
}

/// Whether an expression is made of literals, names and scalar operators.
pub open spec fn is_scalar(e: Expr) -> bool
    decreases e,
{
    match e.kind {
        ExprKind::Literal(Literal::Integer(text)) => integer_value(text@) is Some,
        ExprKind::Literal(Literal::Str(text)) => string_value(text@) is Some,
        ExprKind::Literal(Literal::Char(text)) => char_value(text@) is Some,
        ExprKind::BoolLit(_) => true,
        ExprKind::NameRef(_) => true,
        ExprKind::Binary { op, lhs, rhs } => is_scalar_op(op) && is_scalar(*lhs) && is_scalar(
            *rhs,
        ),
        _ => false,
    }
}

/// The names that a scalar expression reads.
pub open spec fn reads(e: Expr, name: Name) -> bool
    decreases e,
{
    match e.kind {
        ExprKind::NameRef(n) => n@ == name,
        ExprKind::Binary { lhs, rhs, .. } => reads(*lhs, name) || reads(*rhs, name),
        _ => false,
    }
}

/// The code of a character: that of the text it makes.
pub open spec fn char_code(c: Codes, ch: u32) -> int {
    (c.text)(encode_utf8(seq![ch as char]))
}

/// The value of a scalar expression, where names have these values.
pub open spec fn value_of(c: Codes, e: Expr, names: spec_fn(Name) -> int) -> int
    decreases e,
{
    match e.kind {
        ExprKind::Literal(Literal::Integer(text)) => integer_value(text@)->0,
        ExprKind::Literal(Literal::Str(text)) => (c.text)(encode_utf8(string_value(text@)->0)),
        ExprKind::Literal(Literal::Char(text)) => char_code(c, char_value(text@)->0),
        ExprKind::BoolLit(b) => bit(b),
        ExprKind::NameRef(name) => names(name@),
        ExprKind::Binary { op, lhs, rhs } => binary_value(
            c,
            op,
            value_of(c, *lhs, names),
            value_of(c, *rhs, names),
        ),
        _ => 0,
    }
}

/// What the values of a running function hold.
pub struct Machine {
    /// A scalar.
    pub cell: spec_fn(ValueId) -> int,
    /// The cell of a record at an offset.
    pub at: spec_fn(ValueId, int) -> int,
    /// The rows of a relation.
    pub row: spec_fn(ValueId, Row) -> bool,
    /// How many elements a sequence has.
    pub length: spec_fn(ValueId) -> int,
    /// The cell at an offset of a sequence's element.
    pub element: spec_fn(ValueId, int, int) -> int,
}

/// What machine code finds around it.
pub struct Site {
    pub codes: Codes,
    pub headings: Seq<HeadingView>,
    /// The rows of a relvar's slot.
    pub slot: spec_fn(Name, Row) -> bool,
    /// Whether a predicate function accepts a row of a heading.
    pub accepts: spec_fn(Name, HeadingView, Row) -> bool,
    /// Whether an extension function makes the second row, of the second heading, of
    /// the first.
    pub fills: spec_fn(Name, HeadingView, Row, HeadingView, Row) -> bool,
}

/// What a scalar instruction computes.
pub open spec fn machine_value(c: Codes, op: ScalarOp, a: int, b: int) -> int {
    match op {
        ScalarOp::Eq => bit(a == b),
        ScalarOp::NotEq => bit(a != b),
        ScalarOp::Lt => bit(a < b),
        ScalarOp::Gt => bit(a > b),
        ScalarOp::LtEq => bit(a <= b),
        ScalarOp::GtEq => bit(a >= b),
        ScalarOp::And => bit(a != 0 && b != 0),
        ScalarOp::Or => bit(a != 0 || b != 0),
        ScalarOp::Not => bit(a == 0),
        ScalarOp::Add => a + b,
        ScalarOp::Sub => a - b,
        ScalarOp::Mul => a * b,
        ScalarOp::Div => quotient(a, b),
        ScalarOp::Concat => (c.concat)(a, b),
        _ => 0,
    }
}

/// The value of a constant.
pub open spec fn const_value(c: Codes, k: ConstView) -> int {
    match k {
        ConstView::Integer(n) => n,
        ConstView::Text(bytes) => (c.text)(bytes),
        ConstView::Character(ch) => char_code(c, ch),
        ConstView::Boolean(b) => bit(b),
        _ => 0,
    }
}

/// The heading of a number.
pub open spec fn heading_of(headings: Seq<HeadingView>, id: crate::ir::HeadingId) -> HeadingView {
    headings[id.0 as int]
}

/// Whether `r` has, under each attribute of the result, the value that the source row
/// has under the attribute at the place given for it.
pub open spec fn is_permuted(
    source: HeadingView,
    result: HeadingView,
    perm: Seq<u32>,
    s: Row,
    r: Row,
) -> bool {
    &&& forall|n: Name| #[trigger] r.dom().contains(n) <==> attr_names(result).contains(n)
    &&& forall|i: int|
        0 <= i < result.len() ==> r[(#[trigger] result[i]).0] == s[source[perm[i] as int].0]
}

/// Whether the rows of a relation are these.
pub open spec fn rows_are(m: Machine, v: ValueId, rows: spec_fn(Row) -> bool) -> bool {
    forall|r: Row| #[trigger] (m.row)(v, r) == rows(r)
}

/// Whether a record is that of a sequence's element.
pub open spec fn is_element(m: Machine, record: ValueId, seq: ValueId, index: int) -> bool {
    forall|o: int| #[trigger] (m.at)(record, o) == (m.element)(seq, index, o)
}

/// Whether an extension function makes the row of one of the relation's.
pub open spec fn is_filled(
    site: Site,
    m: Machine,
    src: ValueId,
    helper: Name,
    h: HeadingView,
    wide: HeadingView,
    r: Row,
) -> bool {
    exists|s: Row| (m.row)(src, s) && #[trigger] (site.fills)(helper, h, s, wide, r)
}

/// Whether a row is the part of one of the relation's under the names.
pub open spec fn is_narrowed(m: Machine, src: ValueId, names: Seq<Name>, r: Row) -> bool {
    exists|s: Row| (m.row)(src, s) && r == #[trigger] narrow(s, names)
}

/// Whether a row is one of the relation's with its values moved.
pub open spec fn is_relabelled(
    m: Machine,
    src: ValueId,
    source: HeadingView,
    result: HeadingView,
    perm: Seq<u32>,
    r: Row,
) -> bool {
    exists|s: Row| (m.row)(src, s) && #[trigger] is_permuted(source, result, perm, s, r)
}

/// Whether a row is made of one of each relation, over their attributes.
pub open spec fn is_joined(
    m: Machine,
    lhs: ValueId,
    rhs: ValueId,
    ours: Seq<Name>,
    theirs: Seq<Name>,
    r: Row,
) -> bool {
    &&& (m.row)(lhs, narrow(r, ours))
    &&& (m.row)(rhs, narrow(r, theirs))
    &&& forall|n: Name| #[trigger] r.dom().contains(n) ==> ours.contains(n) || theirs.contains(n)
}

/// Whether what an instruction assigns is what it computes.
pub open spec fn inst_holds(site: Site, m: Machine, inst: InstView) -> bool {
    match inst {
        InstView::Const { dst, value, .. } => (m.cell)(dst) == const_value(site.codes, value),
        InstView::ScalarOp { dst, op, lhs, rhs, .. } => (m.cell)(dst) == machine_value(
            site.codes,
            op,
            (m.cell)(lhs),
            (m.cell)(rhs),
        ),
        InstView::CharToText { dst, src } => (m.cell)(dst) == (m.cell)(src),
        InstView::AttrLoad { dst, src, offset, .. } => (m.cell)(dst) == (m.at)(src, offset as int),
        InstView::AttrStore { record, offset, value, .. } => (m.at)(record, offset as int) == (
        m.cell)(value),
        InstView::Call { dst: Some(dst), callee, args, .. } => {
            &&& callee == "coddl_rc_length"@ ==> (m.cell)(dst) == (m.length)(args[0])
            &&& callee == "coddl_seq_index"@ && callee != "coddl_rc_length"@ ==> is_element(m, dst, args[0], (m.cell)(args[1]))
        },
        InstView::RelvarRead { dst, name, .. } => rows_are(m, dst, |r: Row| (site.slot)(name, r)),
        InstView::Where { dst, src, predicate_linkage, heading_id } => rows_are(
            m,
            dst,
            |r: Row|
                (m.row)(src, r) && (site.accepts)(
                    predicate_linkage,
                    heading_of(site.headings, heading_id),
                    r,
                ),
        ),
        InstView::Extend { dst, src, helper_linkage, src_heading_id, result_heading_id } => {
            rows_are(
                m,
                dst,
                |r: Row|
                    is_filled(
                        site,
                        m,
                        src,
                        helper_linkage,
                        heading_of(site.headings, src_heading_id),
                        heading_of(site.headings, result_heading_id),
                        r,
                    ),
            )
        },
        InstView::Project { dst, src, result_heading_id, .. } => rows_are(
            m,
            dst,
            |r: Row|
                is_narrowed(m, src, attr_names(heading_of(site.headings, result_heading_id)), r),
        ),
        InstView::Rename { dst, src, src_heading_id, result_heading_id, perm } => rows_are(
            m,
            dst,
            |r: Row|
                is_relabelled(
                    m,
                    src,
                    heading_of(site.headings, src_heading_id),
                    heading_of(site.headings, result_heading_id),
                    perm,
                    r,
                ),
        ),
        InstView::Join { dst, lhs, rhs, lhs_heading_id, rhs_heading_id, .. } => rows_are(
            m,
            dst,
            |r: Row|
                is_joined(
                    m,
                    lhs,
                    rhs,
                    attr_names(heading_of(site.headings, lhs_heading_id)),
                    attr_names(heading_of(site.headings, rhs_heading_id)),
                    r,
                ),
        ),
        InstView::Union { dst, lhs, rhs, .. } => rows_are(
            m,
            dst,
            |r: Row| (m.row)(lhs, r) || (m.row)(rhs, r),
        ),
        InstView::Minus { dst, lhs, rhs, .. } => rows_are(
            m,
            dst,
            |r: Row| (m.row)(lhs, r) && !(m.row)(rhs, r),
        ),
        InstView::RelationLit { dst, tuples, .. } => tuples.len() == 0 ==> rows_are(
            m,
            dst,
            |r: Row| false,
        ),
        _ => true,
    }
}

/// Whether everything that the instructions assign is what they compute.
pub open spec fn obeys(site: Site, m: Machine, insts: Seq<InstView>) -> bool {
    forall|i: int| 0 <= i < insts.len() ==> inst_holds(site, m, #[trigger] insts[i])
}

/// Whether an instruction computes a scalar from scalars, or counts elements.
pub open spec fn is_scalar_inst(inst: InstView) -> bool {
    ||| inst is Const || inst is ScalarOp || inst is CharToText
    ||| inst matches InstView::Call { callee, .. } && callee == "coddl_rc_length"@
}

/// Whether the scalars that the instructions assign are what they compute.
pub open spec fn reckons(site: Site, m: Machine, insts: Seq<InstView>) -> bool {
    forall|i: int|
        0 <= i < insts.len() && is_scalar_inst(#[trigger] insts[i]) ==> inst_holds(
            site,
            m,
            insts[i],
        )
}

/// Whether a record holds a row, each attribute's value at the attribute's offset.
pub open spec fn holds_record(m: Machine, record: ValueId, h: HeadingView, r: Row) -> bool {
    forall|i: int|
        0 <= i < h.len() ==> (m.at)(
            record,
            (record_bytes(#[trigger] h.take(i))->0 as u32) as int,
        ) == r[h[i].0]
}

/// Whether a function is made of one block.
pub open spec fn is_straight(f: FunctionView) -> bool {
    f.blocks.len() == 1
}

/// Whether running a predicate function on a row gives the answer: its parameter is
/// the row's record, its code is obeyed, and what it returns is the answer.
pub open spec fn answers(
    site: Site,
    f: FunctionView,
    h: HeadingView,
    r: Row,
    m: Machine,
    answer: bool,
) -> bool {
    &&& holds_record(m, ValueId(0), h, r)
    &&& obeys(site, m, f.blocks[0].insts)
    &&& f.blocks[0].terminator matches TerminatorView::Return(Some(v)) && answer == ((m.cell)(v)
        != 0)
}

/// Whether the predicate functions that are made of one block accept what running
/// them gives.
pub open spec fn tests_run(site: Site, functions: Seq<FunctionView>) -> bool {
    forall|i: int, h: HeadingView, r: Row|
        0 <= i < functions.len() && is_straight(functions[i]) && functions[i].params.len() == 1
            ==> exists|m: Machine|
            #[trigger]
            answers(
                site,
                functions[i],
                h,
                r,
                m,
                #[trigger] (site.accepts)(functions[i].linkage_name, h, r),
            )
}

} // verus!
