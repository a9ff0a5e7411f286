//! The procedural intermediate representation: modules of functions, each a
//! graph of basic blocks in static single assignment form.

use crate::rel_expr::Approx;
use crate::text::{name_lists_of, name_pairs_of, Name};
use crate::types::{Heading, HeadingView};
use vstd::prelude::*;

verus! {

/// One compilation unit.
#[derive(Debug)]
pub struct Module {
    /// The program's name; empty when the source names none.
    pub program_name: String,
    pub functions: Vec<Function>,
    /// The headings that instructions refer to by number; it only grows.
    pub headings: Vec<Heading>,
    /// The public relvars, in declaration order.
    pub public_relvars: Vec<PublicRelvarBinding>,
    /// The database file that is used unless the environment names another.
    pub db_path_default: Option<String>,
    /// The database's name.
    pub db_name: Option<String>,
    /// The plans that queries and modifications refer to by number.
    pub plans: Vec<PlanEntry>,
    /// The private relvars that need a slot, by name.
    pub private_relvar_slots: Vec<(String, HeadingId)>,
}

/// The number of a heading of a module.
#[derive(Copy, Clone, PartialEq, Eq, Hash, Debug, Structural)]
pub struct HeadingId(pub u32);

/// A public relvar of a module: its heading, its table with the
/// `(attribute, column)` pairs, and its declared keys.
#[derive(Debug)]
pub struct PublicRelvarBinding {
    pub name: String,
    pub heading_id: HeadingId,
    pub table_name: String,
    pub columns: Vec<(String, String)>,
    pub keys: Vec<Vec<String>>,
}

/// A plan: a statement with its bind values and what it returns.
#[derive(Debug)]
pub struct PlanEntry {
    pub plan_id: u32,
    pub db_name: String,
    pub sql: String,
    /// How many values the statement binds.
    pub param_count: u32,
    /// The relations it takes, in slot order.
    pub rel_params: Vec<RelParamReg>,
    pub result_heading_id: HeadingId,
    /// The plan to run instead when the dispatch slot holds exactly one row.
    pub card1_alt: Option<u32>,
    /// The slot whose row count selects the other plan.
    pub dispatch_slot: u32,
}

/// A relation that a plan takes.
#[derive(Clone, Copy, Debug, PartialEq, Eq, Structural)]
pub struct RelParamReg {
    /// The columns the relation must have.
    pub arity: u32,
    /// Whether an empty relation makes the result empty.
    pub absorbs_empty: bool,
}

/// A function; one without blocks is defined elsewhere.
#[derive(Debug)]
pub struct Function {
    pub name: String,
    /// The symbol it is linked by.
    pub linkage_name: String,
    pub params: Vec<(String, ProcType)>,
    pub return_type: ProcType,
    pub blocks: Vec<BasicBlock>,
}

/// A straight run of instructions, entered with one value for each parameter.
#[derive(Debug)]
pub struct BasicBlock {
    pub id: BlockId,
    pub params: Vec<(ValueId, ProcType)>,
    pub insts: Vec<Inst>,
    pub terminator: Terminator,
}

/// The number of a basic block of a function.
#[derive(Copy, Clone, PartialEq, Eq, Hash, Debug, Structural)]
pub struct BlockId(pub u32);

/// The number of a value of a function.
#[derive(Copy, Clone, PartialEq, Eq, Hash, Debug, Structural)]
pub struct ValueId(pub u32);

/// An instruction.
#[derive(Debug)]
pub enum Inst {
    /// A compile-time constant.
    Const { dst: ValueId, value: Const, ty: ProcType },
    /// A call by linkage name; `dst` is absent when the callee returns `Unit`.
    Call { dst: Option<ValueId>, callee: String, args: Vec<ValueId>, return_type: ProcType },
    /// A tuple of its fields, in canonical heading order.
    TupleLit { dst: ValueId, fields: Vec<(String, ValueId)>, heading: Heading },
    /// One field of a tuple.
    TupleField { dst: ValueId, src: ValueId, field_name: String, field_type: ProcType },
    /// A tuple stored into a record on the heap.
    TupleBox { dst: ValueId, src: ValueId, heading_id: HeadingId },
    /// A tuple read back from its record on the heap.
    TupleUnbox { dst: ValueId, src: ValueId, heading_id: HeadingId },
    /// A relation of its tuples.
    RelationLit { dst: ValueId, tuples: Vec<ValueId>, heading_id: HeadingId },
    /// A sequence of its elements, in order; the heading has one attribute.
    SequenceLit { dst: ValueId, elements: Vec<ValueId>, heading_id: HeadingId },
    /// One more reference to a heap value.
    Retain { src: ValueId },
    /// One reference less to a heap value.
    Release { src: ValueId },
    /// A relation printed.
    WriteRelation { rel: ValueId, heading_id: HeadingId },
    /// A scalar operator on two operands of one type.
    ScalarOp { dst: ValueId, op: ScalarOp, operand_type: ProcType, lhs: ValueId, rhs: ValueId },
    /// A character as a text of one character.
    CharToText { dst: ValueId, src: ValueId },
    /// One cell of a record, by its byte offset.
    AttrLoad { dst: ValueId, src: ValueId, offset: u32, attr_type: ProcType },
    /// One cell of a record written, by its byte offset.
    AttrStore { record: ValueId, offset: u32, value: ValueId, attr_type: ProcType },
    /// The tuples that a helper function accepts.
    Where { dst: ValueId, src: ValueId, predicate_linkage: String, heading_id: HeadingId },
    /// The tuples with attributes that a helper function computes.
    Extend { dst: ValueId, src: ValueId, helper_linkage: String, src_heading_id: HeadingId, result_heading_id: HeadingId },
    /// The tuples narrowed to the result heading.
    Project { dst: ValueId, src: ValueId, src_heading_id: HeadingId, result_heading_id: HeadingId },
    /// The tuples under new names; `perm[i]` is the source position of the `i`-th attribute.
    Rename { dst: ValueId, src: ValueId, src_heading_id: HeadingId, result_heading_id: HeadingId, perm: Vec<u32> },
    /// The tuples as an ordered sequence; a key is an attribute position, with the top bit set for descending order.
    Load { dst: ValueId, src: ValueId, heading_id: HeadingId, keys: Vec<u32> },
    /// A sequence of tuples as a relation.
    Collect { dst: ValueId, src: ValueId, heading_id: HeadingId },
    /// The tuples in another nesting of the same cells.
    Restructure { dst: ValueId, src: ValueId, src_heading_id: HeadingId, result_heading_id: HeadingId },
    /// The natural join.
    Join { dst: ValueId, lhs: ValueId, rhs: ValueId, lhs_heading_id: HeadingId, rhs_heading_id: HeadingId, result_heading_id: HeadingId },
    /// The union of two relations of one heading.
    Union { dst: ValueId, lhs: ValueId, rhs: ValueId, heading_id: HeadingId },
    /// The difference of two relations of one heading.
    Minus { dst: ValueId, lhs: ValueId, rhs: ValueId, heading_id: HeadingId },
    /// The relation itself when the condition holds, else the empty one.
    Gate { dst: ValueId, src: ValueId, cond: ValueId, heading_id: HeadingId },
    /// The primary relation unless it is empty, else the fallback.
    Otherwise { dst: ValueId, primary: ValueId, fallback: ValueId },
    /// The transitive closure of a binary relation.
    TClose { dst: ValueId, src: ValueId, heading_id: HeadingId },
    /// A comparison of two relations of one heading.
    RelCompare { dst: ValueId, op: RelCmpOp, lhs: ValueId, rhs: ValueId, heading_id: HeadingId },
    /// The only tuple of a relation.
    Extract { dst: ValueId, src: ValueId, heading_id: HeadingId },
    /// A public relvar read from its database at program start.
    RelvarSlotInit { name: String, heading_id: HeadingId },
    /// A relvar slot let go at program end.
    RelvarSlotRelease { name: String },
    /// The value of a relvar slot.
    RelvarRead { dst: ValueId, name: String, heading_id: HeadingId },
    /// A private relvar slot made empty at program start.
    PrivateRelvarSlotInit { name: String, heading_id: HeadingId },
    /// A relation moved into a relvar slot.
    RelvarSlotStore { name: String, value: ValueId },
    /// The database made known to the run-time library.
    RegisterDatabase,
    /// A plan made known to the run-time library.
    RegisterPlan { plan_id: u32 },
    /// A plan run with bind values and shipped relations.
    Query { dst: ValueId, plan_id: u32, params: Vec<(ValueId, ProcType)>, rels: Vec<(ValueId, HeadingId)>, heading_id: HeadingId },
    /// A modification plan run with bind values.
    Dml { plan_id: u32, params: Vec<(ValueId, ProcType)> },
    /// The rows of a relation inserted by a plan.
    InsertFrom { plan_id: u32, src: ValueId, heading_id: HeadingId },
}

/// A comparison of relations: equality, or the (proper) subset test.
#[derive(Copy, Clone, Debug, PartialEq, Eq, Structural)]
pub enum RelCmpOp {
    Eq,
    Subset { proper: bool },
}

/// A scalar operator.
#[derive(Copy, Clone, Debug, PartialEq, Eq, Structural)]
pub enum ScalarOp {
    Eq,
    NotEq,
    Lt,
    Gt,
    LtEq,
    GtEq,
    And,
    Or,
    /// Negation; the second operand repeats the first.
    Not,
    Add,
    Sub,
    Mul,
    /// Integer division, towards zero.
    Div,
    /// Two integers to a rational.
    RatioFromInts,
    RationalAdd,
    RationalSub,
    RationalMul,
    RationalDiv,
    Concat,
}

/// How a basic block ends.
#[derive(Debug)]
pub enum Terminator {
    Return(Option<ValueId>),
    /// To one of two blocks, which take no values.
    CondBr { cond: ValueId, then_block: BlockId, else_block: BlockId },
    /// To a block, with one value for each of its parameters.
    Br { target: BlockId, args: Vec<ValueId> },
    Unreachable,
}

/// A constant.
#[derive(Debug, PartialEq, Eq)]
pub enum Const {
    Integer(i64),
    /// The UTF-8 bytes of a text.
    Text(Vec<u8>),
    /// A character, as its Unicode scalar value.
    Character(u32),
    Approximate(Approx),
    /// A reduced numerator and denominator.
    Rational(i64, i64),
    Boolean(bool),
    Unit,
}

/// A machine-level type.
#[derive(Debug, PartialEq, Eq)]
pub enum ProcType {
    Integer,
    Rational,
    Approximate,
    Text,
    Character,
    Binary,
    Byte,
    Boolean,
    Unit,
    Pointer,
    Tuple(Heading),
    Relation(HeadingId),
    Sequence(Box<ProcType>),
}

/// What a [`ProcType`] stands for.
pub enum ProcTypeView {
    Integer,
    Rational,
    Approximate,
    Text,
    Character,
    Binary,
    Byte,
    Boolean,
    Unit,
    Pointer,
    Tuple(HeadingView),
    Relation(HeadingId),
    Sequence(Box<ProcTypeView>),
}

/// What a [`Const`] stands for.
pub enum ConstView {
    Integer(int),
    Text(Seq<u8>),
    Character(u32),
    Approximate { bits: u64, notation: Seq<char> },
    Rational(int, int),
    Boolean(bool),
    Unit,
}

/// What an [`Inst`] stands for.
pub enum InstView {
    Const { dst: ValueId, value: ConstView, ty: ProcTypeView },
    Call { dst: Option<ValueId>, callee: Name, args: Seq<ValueId>, return_type: ProcTypeView },
    TupleLit { dst: ValueId, fields: Seq<(Name, ValueId)>, heading: HeadingView },
    TupleField { dst: ValueId, src: ValueId, field_name: Name, field_type: ProcTypeView },
    TupleBox { dst: ValueId, src: ValueId, heading_id: HeadingId },
    TupleUnbox { dst: ValueId, src: ValueId, heading_id: HeadingId },
    RelationLit { dst: ValueId, tuples: Seq<ValueId>, heading_id: HeadingId },
    SequenceLit { dst: ValueId, elements: Seq<ValueId>, heading_id: HeadingId },
    Retain { src: ValueId },
    Release { src: ValueId },
    WriteRelation { rel: ValueId, heading_id: HeadingId },
    ScalarOp { dst: ValueId, op: ScalarOp, operand_type: ProcTypeView, lhs: ValueId, rhs: ValueId },
    CharToText { dst: ValueId, src: ValueId },
    AttrLoad { dst: ValueId, src: ValueId, offset: u32, attr_type: ProcTypeView },
    AttrStore { record: ValueId, offset: u32, value: ValueId, attr_type: ProcTypeView },
    Where { dst: ValueId, src: ValueId, predicate_linkage: Name, heading_id: HeadingId },
    Extend { dst: ValueId, src: ValueId, helper_linkage: Name, src_heading_id: HeadingId, result_heading_id: HeadingId },
    Project { dst: ValueId, src: ValueId, src_heading_id: HeadingId, result_heading_id: HeadingId },
    Rename { dst: ValueId, src: ValueId, src_heading_id: HeadingId, result_heading_id: HeadingId, perm: Seq<u32> },
    Load { dst: ValueId, src: ValueId, heading_id: HeadingId, keys: Seq<u32> },
    Collect { dst: ValueId, src: ValueId, heading_id: HeadingId },
    Restructure { dst: ValueId, src: ValueId, src_heading_id: HeadingId, result_heading_id: HeadingId },
    Join { dst: ValueId, lhs: ValueId, rhs: ValueId, lhs_heading_id: HeadingId, rhs_heading_id: HeadingId, result_heading_id: HeadingId },
    Union { dst: ValueId, lhs: ValueId, rhs: ValueId, heading_id: HeadingId },
    Minus { dst: ValueId, lhs: ValueId, rhs: ValueId, heading_id: HeadingId },
    Gate { dst: ValueId, src: ValueId, cond: ValueId, heading_id: HeadingId },
    Otherwise { dst: ValueId, primary: ValueId, fallback: ValueId },
    TClose { dst: ValueId, src: ValueId, heading_id: HeadingId },
    RelCompare { dst: ValueId, op: RelCmpOp, lhs: ValueId, rhs: ValueId, heading_id: HeadingId },
    Extract { dst: ValueId, src: ValueId, heading_id: HeadingId },
    RelvarSlotInit { name: Name, heading_id: HeadingId },
    RelvarSlotRelease { name: Name },
    RelvarRead { dst: ValueId, name: Name, heading_id: HeadingId },
    PrivateRelvarSlotInit { name: Name, heading_id: HeadingId },
    RelvarSlotStore { name: Name, value: ValueId },
    RegisterDatabase,
    RegisterPlan { plan_id: u32 },
    Query { dst: ValueId, plan_id: u32, params: Seq<(ValueId, ProcTypeView)>, rels: Seq<(ValueId, HeadingId)>, heading_id: HeadingId },
    Dml { plan_id: u32, params: Seq<(ValueId, ProcTypeView)> },
    InsertFrom { plan_id: u32, src: ValueId, heading_id: HeadingId },
}

/// What a [`Terminator`] stands for.
pub enum TerminatorView {
    Return(Option<ValueId>),
    CondBr { cond: ValueId, then_block: BlockId, else_block: BlockId },
    Br { target: BlockId, args: Seq<ValueId> },
    Unreachable,
}

/// What a [`BasicBlock`] stands for.
pub struct BlockView {
    pub id: BlockId,
    pub params: Seq<(ValueId, ProcTypeView)>,
    pub insts: Seq<InstView>,
    pub terminator: TerminatorView,
}

/// What a [`Function`] stands for.
pub struct FunctionView {
    pub name: Name,
    pub linkage_name: Name,
    pub params: Seq<(Name, ProcTypeView)>,
    pub return_type: ProcTypeView,
    pub blocks: Seq<BlockView>,
}

/// What a [`PublicRelvarBinding`] stands for.
pub struct RelvarView {
    pub name: Name,
    pub heading_id: HeadingId,
    pub table_name: Name,
    pub columns: Seq<(Name, Name)>,
    pub keys: Seq<Seq<Name>>,
}

/// What a [`PlanEntry`] stands for.
pub struct PlanView {
    pub plan_id: u32,
    pub db_name: Name,
    pub sql: Seq<char>,
    pub param_count: u32,
    pub rel_params: Seq<RelParamReg>,
    pub result_heading_id: HeadingId,
    pub card1_alt: Option<u32>,
    pub dispatch_slot: u32,
}

/// What a [`Module`] stands for.
pub struct ModuleView {
    pub program_name: Name,
    pub functions: Seq<FunctionView>,
    pub headings: Seq<HeadingView>,
    pub public_relvars: Seq<RelvarView>,
    pub db_path_default: Option<Seq<char>>,
    pub db_name: Option<Name>,
    pub plans: Seq<PlanView>,
    pub private_relvar_slots: Seq<(Name, HeadingId)>,
}

/// What an optional text stands for.
pub open spec fn maybe_text(s: Option<String>) -> Option<Seq<char>> {
    match s {
        Some(s) => Some(s@),
        None => None,
    }
}

/// What a list of numbered names stands for.
pub open spec fn numbered(s: Seq<(String, HeadingId)>) -> Seq<(Name, HeadingId)> {
    Seq::new(s.len(), |i: int| (s[i].0@, s[i].1))
}

/// What a list of named values stands for.
pub open spec fn named_values(s: Seq<(String, ValueId)>) -> Seq<(Name, ValueId)> {
    Seq::new(s.len(), |i: int| (s[i].0@, s[i].1))
}

/// What a list of typed values stands for.
pub open spec fn typed_values(s: Seq<(ValueId, ProcType)>) -> Seq<(ValueId, ProcTypeView)> {
    Seq::new(s.len(), |i: int| (s[i].0, s[i].1@))
}

/// What a list of parameters stands for.
pub open spec fn params_view(s: Seq<(String, ProcType)>) -> Seq<(Name, ProcTypeView)> {
    Seq::new(s.len(), |i: int| (s[i].0@, s[i].1@))
}

/// What a list of instructions stands for.
pub open spec fn insts_view(s: Seq<Inst>) -> Seq<InstView> {
    Seq::new(s.len(), |i: int| s[i]@)
}

/// What a list of blocks stands for.
pub open spec fn blocks_view(s: Seq<BasicBlock>) -> Seq<BlockView> {
    Seq::new(s.len(), |i: int| s[i]@)
}

/// What a list of functions stands for.
pub open spec fn functions_view(s: Seq<Function>) -> Seq<FunctionView> {
    Seq::new(s.len(), |i: int| s[i]@)
}

/// What a list of headings stands for.
pub open spec fn headings_view(s: Seq<Heading>) -> Seq<HeadingView> {
    Seq::new(s.len(), |i: int| s[i]@)
}

/// What a list of public relvars stands for.
pub open spec fn relvars_view(s: Seq<PublicRelvarBinding>) -> Seq<RelvarView> {
    Seq::new(s.len(), |i: int| s[i]@)
}

/// What a list of plans stands for.
pub open spec fn plans_view(s: Seq<PlanEntry>) -> Seq<PlanView> {
    Seq::new(s.len(), |i: int| s[i]@)
}

impl ProcType {
    pub open spec fn view(&self) -> ProcTypeView
        decreases self,
    {
        match self {
            ProcType::Integer => ProcTypeView::Integer,
            ProcType::Rational => ProcTypeView::Rational,
            ProcType::Approximate => ProcTypeView::Approximate,
            ProcType::Text => ProcTypeView::Text,
            ProcType::Character => ProcTypeView::Character,
            ProcType::Binary => ProcTypeView::Binary,
            ProcType::Byte => ProcTypeView::Byte,
            ProcType::Boolean => ProcTypeView::Boolean,
            ProcType::Unit => ProcTypeView::Unit,
            ProcType::Pointer => ProcTypeView::Pointer,
            ProcType::Tuple(h) => ProcTypeView::Tuple(h@),
            ProcType::Relation(id) => ProcTypeView::Relation(*id),
            ProcType::Sequence(t) => ProcTypeView::Sequence(Box::new(t.view())),
        }
    }
}

impl Clone for ProcType {
    fn clone(&self) -> (r: Self)
        ensures
            r@ == self@,
        decreases self,
    {
        match self {
            ProcType::Integer => ProcType::Integer,
            ProcType::Rational => ProcType::Rational,
            ProcType::Approximate => ProcType::Approximate,
            ProcType::Text => ProcType::Text,
            ProcType::Character => ProcType::Character,
            ProcType::Binary => ProcType::Binary,
            ProcType::Byte => ProcType::Byte,
            ProcType::Boolean => ProcType::Boolean,
            ProcType::Unit => ProcType::Unit,
            ProcType::Pointer => ProcType::Pointer,
            ProcType::Tuple(h) => ProcType::Tuple(h.clone()),
            ProcType::Relation(id) => ProcType::Relation(*id),
            ProcType::Sequence(t) => ProcType::Sequence(Box::new((**t).clone())),
        }
    }
}

impl Const {
    pub open spec fn view(&self) -> ConstView {
        match self {
            Const::Integer(n) => ConstView::Integer(*n as int),
            Const::Text(bytes) => ConstView::Text(bytes@),
            Const::Character(c) => ConstView::Character(*c),
            Const::Approximate(a) => ConstView::Approximate {
                bits: a.bits,
                notation: a.notation@,
            },
            Const::Rational(n, d) => ConstView::Rational(*n as int, *d as int),
            Const::Boolean(b) => ConstView::Boolean(*b),
            Const::Unit => ConstView::Unit,
        }
    }
}

impl Inst {
    pub open spec fn view(&self) -> InstView {
        match self {
            Inst::Const { dst, value, ty } => InstView::Const {
                dst: *dst,
                value: value@,
                ty: ty@,
            },
            Inst::Call { dst, callee, args, return_type } => InstView::Call {
                dst: *dst,
                callee: callee@,
                args: args@,
                return_type: return_type@,
            },
            Inst::TupleLit { dst, fields, heading } => InstView::TupleLit {
                dst: *dst,
                fields: named_values(fields@),
                heading: heading@,
            },
            Inst::TupleField { dst, src, field_name, field_type } => InstView::TupleField {
                dst: *dst,
                src: *src,
                field_name: field_name@,
                field_type: field_type@,
            },
            Inst::TupleBox { dst, src, heading_id } => InstView::TupleBox {
                dst: *dst,
                src: *src,
                heading_id: *heading_id,
            },
            Inst::TupleUnbox { dst, src, heading_id } => InstView::TupleUnbox {
                dst: *dst,
                src: *src,
                heading_id: *heading_id,
            },
            Inst::RelationLit { dst, tuples, heading_id } => InstView::RelationLit {
                dst: *dst,
                tuples: tuples@,
                heading_id: *heading_id,
            },
            Inst::SequenceLit { dst, elements, heading_id } => InstView::SequenceLit {
                dst: *dst,
                elements: elements@,
                heading_id: *heading_id,
            },
            Inst::Retain { src } => InstView::Retain {
                src: *src,
            },
            Inst::Release { src } => InstView::Release {
                src: *src,
            },
            Inst::WriteRelation { rel, heading_id } => InstView::WriteRelation {
                rel: *rel,
                heading_id: *heading_id,
            },
            Inst::ScalarOp { dst, op, operand_type, lhs, rhs } => InstView::ScalarOp {
                dst: *dst,
                op: *op,
                operand_type: operand_type@,
                lhs: *lhs,
                rhs: *rhs,
            },
            Inst::CharToText { dst, src } => InstView::CharToText {
                dst: *dst,
                src: *src,
            },
            Inst::AttrLoad { dst, src, offset, attr_type } => InstView::AttrLoad {
                dst: *dst,
                src: *src,
                offset: *offset,
                attr_type: attr_type@,
            },
            Inst::AttrStore { record, offset, value, attr_type } => InstView::AttrStore {
                record: *record,
                offset: *offset,
                value: *value,
                attr_type: attr_type@,
            },
            Inst::Where { dst, src, predicate_linkage, heading_id } => InstView::Where {
                dst: *dst,
                src: *src,
                predicate_linkage: predicate_linkage@,
                heading_id: *heading_id,
            },
            Inst::Extend { dst, src, helper_linkage, src_heading_id, result_heading_id } => InstView::Extend {
                dst: *dst,
                src: *src,
                helper_linkage: helper_linkage@,
                src_heading_id: *src_heading_id,
                result_heading_id: *result_heading_id,
            },
            Inst::Project { dst, src, src_heading_id, result_heading_id } => InstView::Project {
                dst: *dst,
                src: *src,
                src_heading_id: *src_heading_id,
                result_heading_id: *result_heading_id,
            },
            Inst::Rename { dst, src, src_heading_id, result_heading_id, perm } => InstView::Rename {
                dst: *dst,
                src: *src,
                src_heading_id: *src_heading_id,
                result_heading_id: *result_heading_id,
                perm: perm@,
            },
            Inst::Load { dst, src, heading_id, keys } => InstView::Load {
                dst: *dst,
                src: *src,
                heading_id: *heading_id,
                keys: keys@,
            },
            Inst::Collect { dst, src, heading_id } => InstView::Collect {
                dst: *dst,
                src: *src,
                heading_id: *heading_id,
            },
            Inst::Restructure { dst, src, src_heading_id, result_heading_id } => InstView::Restructure {
                dst: *dst,
                src: *src,
                src_heading_id: *src_heading_id,
                result_heading_id: *result_heading_id,
            },
            Inst::Join { dst, lhs, rhs, lhs_heading_id, rhs_heading_id, result_heading_id } => InstView::Join {
                dst: *dst,
                lhs: *lhs,
                rhs: *rhs,
                lhs_heading_id: *lhs_heading_id,
                rhs_heading_id: *rhs_heading_id,
                result_heading_id: *result_heading_id,
            },
            Inst::Union { dst, lhs, rhs, heading_id } => InstView::Union {
                dst: *dst,
                lhs: *lhs,
                rhs: *rhs,
                heading_id: *heading_id,
            },
            Inst::Minus { dst, lhs, rhs, heading_id } => InstView::Minus {
                dst: *dst,
                lhs: *lhs,
                rhs: *rhs,
                heading_id: *heading_id,
            },
            Inst::Gate { dst, src, cond, heading_id } => InstView::Gate {
                dst: *dst,
                src: *src,
                cond: *cond,
                heading_id: *heading_id,
            },
            Inst::Otherwise { dst, primary, fallback } => InstView::Otherwise {
                dst: *dst,
                primary: *primary,
                fallback: *fallback,
            },
            Inst::TClose { dst, src, heading_id } => InstView::TClose {
                dst: *dst,
                src: *src,
                heading_id: *heading_id,
            },
            Inst::RelCompare { dst, op, lhs, rhs, heading_id } => InstView::RelCompare {
                dst: *dst,
                op: *op,
                lhs: *lhs,
                rhs: *rhs,
                heading_id: *heading_id,
            },
            Inst::Extract { dst, src, heading_id } => InstView::Extract {
                dst: *dst,
                src: *src,
                heading_id: *heading_id,
            },
            Inst::RelvarSlotInit { name, heading_id } => InstView::RelvarSlotInit {
                name: name@,
                heading_id: *heading_id,
            },
            Inst::RelvarSlotRelease { name } => InstView::RelvarSlotRelease {
                name: name@,
            },
            Inst::RelvarRead { dst, name, heading_id } => InstView::RelvarRead {
                dst: *dst,
                name: name@,
                heading_id: *heading_id,
            },
            Inst::PrivateRelvarSlotInit { name, heading_id } => InstView::PrivateRelvarSlotInit {
                name: name@,
                heading_id: *heading_id,
            },
            Inst::RelvarSlotStore { name, value } => InstView::RelvarSlotStore {
                name: name@,
                value: *value,
            },
            Inst::RegisterDatabase => InstView::RegisterDatabase,
            Inst::RegisterPlan { plan_id } => InstView::RegisterPlan {
                plan_id: *plan_id,
            },
            Inst::Query { dst, plan_id, params, rels, heading_id } => InstView::Query {
                dst: *dst,
                plan_id: *plan_id,
                params: typed_values(params@),
                rels: rels@,
                heading_id: *heading_id,
            },
            Inst::Dml { plan_id, params } => InstView::Dml {
                plan_id: *plan_id,
                params: typed_values(params@),
            },
            Inst::InsertFrom { plan_id, src, heading_id } => InstView::InsertFrom {
                plan_id: *plan_id,
                src: *src,
                heading_id: *heading_id,
            },
        }
    }
}

impl Terminator {
    pub open spec fn view(&self) -> TerminatorView {
        match self {
            Terminator::Return(v) => TerminatorView::Return(*v),
            Terminator::CondBr { cond, then_block, else_block } => TerminatorView::CondBr {
                cond: *cond,
                then_block: *then_block,
                else_block: *else_block,
            },
            Terminator::Br { target, args } => TerminatorView::Br { target: *target, args: args@ },
            Terminator::Unreachable => TerminatorView::Unreachable,
        }
    }
}

impl BasicBlock {
    pub open spec fn view(&self) -> BlockView {
        BlockView {
            id: self.id,
            params: typed_values(self.params@),
            insts: insts_view(self.insts@),
            terminator: self.terminator@,
        }
    }
}

impl Function {
    pub open spec fn view(&self) -> FunctionView {
        FunctionView {
            name: self.name@,
            linkage_name: self.linkage_name@,
            params: params_view(self.params@),
            return_type: self.return_type@,
            blocks: blocks_view(self.blocks@),
        }
    }

    /// Whether the function is defined elsewhere.
    pub fn is_extern(&self) -> (r: bool)
        ensures
            r == (self@.blocks.len() == 0),
    {
        self.blocks.len() == 0
    }
}

impl PublicRelvarBinding {
    pub open spec fn view(&self) -> RelvarView {
        RelvarView {
            name: self.name@,
            heading_id: self.heading_id,
            table_name: self.table_name@,
            columns: name_pairs_of(self.columns@),
            keys: name_lists_of(self.keys@),
        }
    }
}

impl PlanEntry {
    pub open spec fn view(&self) -> PlanView {
        PlanView {
            plan_id: self.plan_id,
            db_name: self.db_name@,
            sql: self.sql@,
            param_count: self.param_count,
            rel_params: self.rel_params@,
            result_heading_id: self.result_heading_id,
            card1_alt: self.card1_alt,
            dispatch_slot: self.dispatch_slot,
        }
    }
}

/// The position of the first heading equal to `h`; the length when none is.
pub open spec fn heading_index(hs: Seq<HeadingView>, h: HeadingView) -> nat
    decreases hs.len(),
{
    if hs.len() == 0 {
        0
    } else if hs[0] == h {
        0
    } else {
        1 + heading_index(hs.drop_first(), h)
    }
}

/// The table with `h` in it: added at the end unless it is there already.
pub open spec fn interned(hs: Seq<HeadingView>, h: HeadingView) -> Seq<HeadingView> {
    if heading_index(hs, h) < hs.len() {
        hs
    } else {
        hs.push(h)
    }
}

/// The position of the first heading equal to `h`; the length when none is.
pub fn find_heading(headings: &Vec<Heading>, h: &Heading) -> (r: usize)
    ensures
        r == heading_index(headings_view(headings@), h@),
        r <= headings.len(),
{
    let ghost hs = headings_view(headings@);
    let mut i: usize = 0;
    assert(hs.skip(0) =~= hs);
    while i < headings.len()
        invariant
            i <= headings.len(),
            hs == headings_view(headings@),
            heading_index(hs, h@) == i + heading_index(hs.skip(i as int), h@),
        decreases headings.len() - i,
    {
        assert(hs.skip(i as int)[0] == headings@[i as int]@);
        if headings[i].same(h) {
            return i;
        }
        assert(hs.skip(i as int).drop_first() =~= hs.skip(i as int + 1));
        i += 1;
    }
    i
}

/// The heading's number in the table, added at the end unless it is there.
pub fn intern_in(headings: &mut Vec<Heading>, h: &Heading) -> (id: HeadingId)
    requires
        old(headings).len() <= u32::MAX,
    ensures
        headings_view(final(headings)@) == interned(headings_view(old(headings)@), h@),
        id.0 == heading_index(headings_view(old(headings)@), h@),
{
    let i: usize = find_heading(headings, h);
    if i == headings.len() {
        let ghost was = headings_view(headings@);
        headings.push(h.clone());
        assert(headings_view(headings@) =~= was.push(h@));
    }
    HeadingId(i as u32)
}

impl Module {
    pub open spec fn view(&self) -> ModuleView {
        ModuleView {
            program_name: self.program_name@,
            functions: functions_view(self.functions@),
            headings: headings_view(self.headings@),
            public_relvars: relvars_view(self.public_relvars@),
            db_path_default: maybe_text(self.db_path_default),
            db_name: maybe_text(self.db_name),
            plans: plans_view(self.plans@),
            private_relvar_slots: numbered(self.private_relvar_slots@),
        }
    }

    /// The heading's number, added at the end of the table unless it is there.
    pub fn intern_heading(&mut self, h: &Heading) -> (id: HeadingId)
        requires
            old(self).headings.len() <= u32::MAX,
        ensures
            headings_view(final(self).headings@) == interned(headings_view(old(self).headings@), h@),
            id.0 == heading_index(headings_view(old(self).headings@), h@),
            final(self).program_name == old(self).program_name,
            final(self).functions == old(self).functions,
            final(self).public_relvars == old(self).public_relvars,
            final(self).db_path_default == old(self).db_path_default,
            final(self).db_name == old(self).db_name,
            final(self).plans == old(self).plans,
            final(self).private_relvar_slots == old(self).private_relvar_slots,
    {
        intern_in(&mut self.headings, h)
    }
}

proof fn lemma_heading_index(hs: Seq<HeadingView>, h: HeadingView)
    ensures
        heading_index(hs, h) <= hs.len(),
        heading_index(hs, h) < hs.len() ==> hs[heading_index(hs, h) as int] == h,
        hs.contains(h) ==> heading_index(hs, h) < hs.len(),
        heading_index(hs.push(h), h) == heading_index(hs, h),
    decreases hs.len(),
{
    if hs.len() > 0 {
        let t = hs.drop_first();
        lemma_heading_index(t, h);
        if hs.contains(h) && hs[0] != h {
            let i = choose|i: int| 0 <= i < hs.len() && hs[i] == h;
            assert(t[i - 1] == h);
        }
        assert(hs.push(h).drop_first() =~= t.push(h));
    } else {
        assert(hs.push(h)[0] == h);
    }
}

/// The number of an interned heading leads back to it, numbers handed out
/// before keep their headings, and interning it again changes nothing.
pub proof fn law_interning(hs: Seq<HeadingView>, h: HeadingView)
    ensures
        heading_index(hs, h) < interned(hs, h).len(),
        interned(hs, h)[heading_index(hs, h) as int] == h,
        forall|i: int| 0 <= i < hs.len() ==> interned(hs, h)[i] == #[trigger] hs[i],
        interned(interned(hs, h), h) == interned(hs, h),
        heading_index(interned(hs, h), h) == heading_index(hs, h),
{
    lemma_heading_index(hs, h);
    lemma_heading_index(interned(hs, h), h);
}

} // verus!
