//! The text form of the intermediate representation.

use crate::ir::{
    named_values, params_view, typed_values, BasicBlock, BlockId, BlockView, Const, ConstView,
    Function, FunctionView, HeadingId, Inst, InstView, Module, PlanEntry, PlanView, ProcType,
    ProcTypeView, PublicRelvarBinding, RelCmpOp, RelvarView, ScalarOp, Terminator, TerminatorView,
    ValueId,
};
use crate::ir::{functions_view, headings_view, plans_view, relvars_view};
use crate::text::{
    bool_text, bool_word, decimal, decimal_text, digit, escaped, escaped_text, join_texts, joined,
    names_of, signed_decimal, signed_text, Name,
};
use crate::types::{attrs_view, Heading, HeadingView, Type, TypeView};
use vstd::prelude::*;

verus! {

/// `%<n>`.
pub open spec fn value_text(v: ValueId) -> Seq<char> {
    "%"@ + decimal(v.0 as nat)
}

/// `block_<n>`.
pub open spec fn block_text(b: BlockId) -> Seq<char> {
    "block_"@ + decimal(b.0 as nat)
}

/// `heading_<n>`.
pub open spec fn heading_ref(h: HeadingId) -> Seq<char> {
    "heading_"@ + decimal(h.0 as nat)
}

impl TypeView {
    /// The type as it is written in source text.
    pub open spec fn text(self) -> Seq<char>
        decreases self, 0nat,
    {
        match self {
            TypeView::Integer => "Integer"@,
            TypeView::Rational => "Rational"@,
            TypeView::Approximate => "Approximate"@,
            TypeView::Text => "Text"@,
            TypeView::Character => "Character"@,
            TypeView::Binary => "Binary"@,
            TypeView::Byte => "Byte"@,
            TypeView::Boolean => "Boolean"@,
            TypeView::Tuple(h) => "Tuple "@ + heading_text(h),
            TypeView::Relation(h) => "Relation "@ + heading_text(h),
            TypeView::FormatText => "FormatText"@,
            TypeView::Sequence(t) => "Sequence "@ + t.text(),
            TypeView::Unknown => "Unknown"@,
        }
    }
}

/// `{name: type, ...}`.
pub open spec fn heading_text(h: HeadingView) -> Seq<char>
    decreases h, 1nat,
{
    "{"@ + joined(attr_texts(h), ", "@) + "}"@
}

/// `name: type` for each attribute.
pub open spec fn attr_texts(h: HeadingView) -> Seq<Seq<char>>
    decreases h, 0nat,
{
    Seq::new(
        h.len(),
        |i: int|
            if 0 <= i < h.len() {
                h[i].0 + ": "@ + h[i].1.text()
            } else {
                arbitrary()
            },
    )
}

impl ProcTypeView {
    /// The type's name with what it is made of.
    pub open spec fn text(self) -> Seq<char>
        decreases self,
    {
        match self {
            ProcTypeView::Integer => "Integer"@,
            ProcTypeView::Rational => "Rational"@,
            ProcTypeView::Approximate => "Approximate"@,
            ProcTypeView::Text => "Text"@,
            ProcTypeView::Character => "Character"@,
            ProcTypeView::Binary => "Binary"@,
            ProcTypeView::Byte => "Byte"@,
            ProcTypeView::Boolean => "Boolean"@,
            ProcTypeView::Unit => "Unit"@,
            ProcTypeView::Pointer => "Pointer"@,
            ProcTypeView::Tuple(h) => "Tuple "@ + heading_text(h),
            ProcTypeView::Relation(id) => "Relation "@ + heading_ref(id),
            ProcTypeView::Sequence(t) => "Sequence "@ + t.text(),
        }
    }
}

/// A byte of a text constant: printable ASCII as it is, the usual escapes,
/// `\x` and two hexadecimal digits for the rest.
pub open spec fn byte_text(b: u8) -> Seq<char> {
    if b == 10 {
        "\\n"@
    } else if b == 13 {
        "\\r"@
    } else if b == 9 {
        "\\t"@
    } else if b == 34 {
        "\\\""@
    } else if b == 92 {
        "\\\\"@
    } else if 0x20 <= b <= 0x7e {
        seq![b as char]
    } else {
        "\\x"@ + seq![digit((b / 16) as nat), digit((b % 16) as nat)]
    }
}

/// The bytes of a text constant, one behind the other.
pub open spec fn bytes_text(bytes: Seq<u8>) -> Seq<char>
    decreases bytes.len(),
{
    if bytes.len() == 0 {
        Seq::empty()
    } else {
        bytes_text(bytes.drop_last()) + byte_text(bytes.last())
    }
}

impl ConstView {
    /// The constant as a literal.
    pub open spec fn text(self) -> Seq<char> {
        match self {
            ConstView::Integer(n) => signed_decimal(n),
            ConstView::Text(bytes) => "\""@ + bytes_text(bytes) + "\""@,
            ConstView::Character(cp) => "'"@ + escaped(cp) + "'"@,
            ConstView::Approximate { notation, .. } => notation,
            ConstView::Rational(n, d) => signed_decimal(n) + "/"@ + signed_decimal(d),
            ConstView::Boolean(b) => bool_word(b),
            ConstView::Unit => "{}"@,
        }
    }
}

/// The values with commas between them.
pub open spec fn values_text(vs: Seq<ValueId>) -> Seq<char> {
    joined(Seq::new(vs.len(), |i: int| value_text(vs[i])), ", "@)
}

/// `name: value` with commas between them.
pub open spec fn fields_text(fs: Seq<(Name, ValueId)>) -> Seq<char> {
    joined(Seq::new(fs.len(), |i: int| fs[i].0 + ": "@ + value_text(fs[i].1)), ", "@)
}

/// The bind values with commas between them.
pub open spec fn params_text(ps: Seq<(ValueId, ProcTypeView)>) -> Seq<char> {
    joined(Seq::new(ps.len(), |i: int| value_text(ps[i].0)), ", "@)
}

/// The shipped relations with their headings; nothing when there are none.
pub open spec fn rels_text(rs: Seq<(ValueId, HeadingId)>) -> Seq<char> {
    if rs.len() == 0 {
        Seq::empty()
    } else {
        " rels ("@ + joined(
            Seq::new(rs.len(), |i: int| value_text(rs[i].0) + " "@ + heading_ref(rs[i].1)),
            ", "@,
        ) + ")"@
    }
}

/// The numbers in brackets, with commas between them.
pub open spec fn numbers_text(ns: Seq<u32>) -> Seq<char> {
    "["@ + joined(Seq::new(ns.len(), |i: int| decimal(ns[i] as nat)), ", "@) + "]"@
}

/// `<value> = `, or nothing.
pub open spec fn dst_text(dst: Option<ValueId>) -> Seq<char> {
    match dst {
        Some(v) => value_text(v) + " = "@,
        None => Seq::empty(),
    }
}

/// The operator's name.
pub open spec fn scalar_op_text(op: ScalarOp) -> Seq<char> {
    match op {
        ScalarOp::Eq => "eq"@,
        ScalarOp::NotEq => "ne"@,
        ScalarOp::Lt => "lt"@,
        ScalarOp::Gt => "gt"@,
        ScalarOp::LtEq => "le"@,
        ScalarOp::GtEq => "ge"@,
        ScalarOp::And => "and"@,
        ScalarOp::Or => "or"@,
        ScalarOp::Not => "not"@,
        ScalarOp::Add => "add"@,
        ScalarOp::Sub => "sub"@,
        ScalarOp::Mul => "mul"@,
        ScalarOp::Div => "sdiv"@,
        ScalarOp::RatioFromInts => "ratio_from_ints"@,
        ScalarOp::RationalAdd => "rat_add"@,
        ScalarOp::RationalSub => "rat_sub"@,
        ScalarOp::RationalMul => "rat_mul"@,
        ScalarOp::RationalDiv => "rat_div"@,
        ScalarOp::Concat => "concat"@,
    }
}

/// The comparison's name.
pub open spec fn rel_test_text(op: RelCmpOp) -> Seq<char> {
    match op {
        RelCmpOp::Eq => "rel_eq"@,
        RelCmpOp::Subset { proper } => if proper {
            "rel_proper_subset"@
        } else {
            "rel_subset"@
        },
    }
}

impl InstView {
    /// The instruction on one line.
    pub open spec fn text(self) -> Seq<char> {
        match self {
            InstView::Const { dst, value, ty } => value_text(dst) + " = const "@ + ty.text() + " "@ + value.text(),
            InstView::Call { dst, callee, args, .. } => dst_text(dst) + "call "@ + callee + "("@ + values_text(args) + ")"@,
            InstView::TupleLit { dst, fields, .. } => value_text(dst) + " = tuple_lit {"@ + fields_text(fields) + "}"@,
            InstView::TupleField { dst, src, field_name, .. } => value_text(dst) + " = field "@ + value_text(src) + "."@ + field_name,
            InstView::TupleBox { dst, src, heading_id } => value_text(dst) + " = tuple_box "@ + heading_ref(heading_id) + " "@ + value_text(src),
            InstView::TupleUnbox { dst, src, heading_id } => value_text(dst) + " = tuple_unbox "@ + heading_ref(heading_id) + " "@ + value_text(src),
            InstView::RelationLit { dst, tuples, heading_id } => value_text(dst) + " = relation_lit "@ + heading_ref(heading_id) + " {"@ + values_text(tuples) + "}"@,
            InstView::SequenceLit { dst, elements, heading_id } => value_text(dst) + " = sequence_lit "@ + heading_ref(heading_id) + " ["@ + values_text(elements) + "]"@,
            InstView::Retain { src } => "retain "@ + value_text(src),
            InstView::Release { src } => "release "@ + value_text(src),
            InstView::WriteRelation { rel, heading_id } => "write_relation "@ + value_text(rel) + " "@ + heading_ref(heading_id),
            InstView::ScalarOp { dst, op, lhs, rhs, .. } => value_text(dst) + " = scalar_op "@ + scalar_op_text(op) + " "@ + value_text(lhs) + " "@ + value_text(rhs),
            InstView::CharToText { dst, src } => value_text(dst) + " = char_to_text "@ + value_text(src),
            InstView::AttrLoad { dst, src, offset, attr_type } => value_text(dst) + " = attr_load "@ + value_text(src) + "+"@ + decimal(offset as nat) + " : "@ + attr_type.text(),
            InstView::AttrStore { record, offset, value, attr_type } => "attr_store "@ + value_text(record) + "+"@ + decimal(offset as nat) + " = "@ + value_text(value) + " : "@ + attr_type.text(),
            InstView::Where { dst, src, predicate_linkage, heading_id } => value_text(dst) + " = where "@ + value_text(src) + " by "@ + predicate_linkage + " "@ + heading_ref(heading_id),
            InstView::Extend { dst, src, helper_linkage, src_heading_id, result_heading_id } => value_text(dst) + " = extend "@ + value_text(src) + " by "@ + helper_linkage + " "@ + heading_ref(src_heading_id) + " -> "@ + heading_ref(result_heading_id),
            InstView::Project { dst, src, src_heading_id, result_heading_id } => value_text(dst) + " = project "@ + value_text(src) + " "@ + heading_ref(src_heading_id) + " -> "@ + heading_ref(result_heading_id),
            InstView::Rename { dst, src, src_heading_id, result_heading_id, perm } => value_text(dst) + " = rename "@ + value_text(src) + " "@ + heading_ref(src_heading_id) + " -> "@ + heading_ref(result_heading_id) + " perm"@ + numbers_text(perm),
            InstView::Load { dst, src, heading_id, keys } => value_text(dst) + " = load "@ + value_text(src) + " "@ + heading_ref(heading_id) + " keys"@ + numbers_text(keys),
            InstView::Collect { dst, src, heading_id } => value_text(dst) + " = collect "@ + value_text(src) + " "@ + heading_ref(heading_id),
            InstView::Restructure { dst, src, src_heading_id, result_heading_id } => value_text(dst) + " = restructure "@ + value_text(src) + " "@ + heading_ref(src_heading_id) + " -> "@ + heading_ref(result_heading_id),
            InstView::Join { dst, lhs, rhs, lhs_heading_id, rhs_heading_id, result_heading_id } => value_text(dst) + " = join "@ + value_text(lhs) + " "@ + heading_ref(lhs_heading_id) + " "@ + value_text(rhs) + " "@ + heading_ref(rhs_heading_id) + " -> "@ + heading_ref(result_heading_id),
            InstView::Union { dst, lhs, rhs, heading_id } => value_text(dst) + " = union "@ + value_text(lhs) + " "@ + value_text(rhs) + " -> "@ + heading_ref(heading_id),
            InstView::Minus { dst, lhs, rhs, heading_id } => value_text(dst) + " = minus "@ + value_text(lhs) + " "@ + value_text(rhs) + " -> "@ + heading_ref(heading_id),
            InstView::Gate { dst, src, cond, heading_id } => value_text(dst) + " = gate "@ + value_text(src) + " by "@ + value_text(cond) + " -> "@ + heading_ref(heading_id),
            InstView::Otherwise { dst, primary, fallback } => value_text(dst) + " = otherwise "@ + value_text(primary) + " "@ + value_text(fallback),
            InstView::TClose { dst, src, heading_id } => value_text(dst) + " = tclose "@ + value_text(src) + " -> "@ + heading_ref(heading_id),
            InstView::RelCompare { dst, op, lhs, rhs, heading_id } => value_text(dst) + " = "@ + rel_test_text(op) + " "@ + value_text(lhs) + " "@ + value_text(rhs) + " @ "@ + heading_ref(heading_id),
            InstView::Extract { dst, src, heading_id } => value_text(dst) + " = extract "@ + value_text(src) + " "@ + heading_ref(heading_id),
            InstView::RelvarSlotInit { name, heading_id } => "relvar_slot_init "@ + name + " "@ + heading_ref(heading_id),
            InstView::RelvarSlotRelease { name } => "relvar_slot_release "@ + name,
            InstView::RelvarRead { dst, name, heading_id } => value_text(dst) + " = relvar_read "@ + name + " "@ + heading_ref(heading_id),
            InstView::PrivateRelvarSlotInit { name, heading_id } => "private_relvar_slot_init "@ + name + " "@ + heading_ref(heading_id),
            InstView::RelvarSlotStore { name, value } => "relvar_slot_store "@ + name + " "@ + value_text(value),
            InstView::RegisterDatabase => "register_database"@,
            InstView::RegisterPlan { plan_id } => "register_plan plan_"@ + decimal(plan_id as nat),
            InstView::Query { dst, plan_id, params, rels, heading_id } => value_text(dst) + " = query plan_"@ + decimal(plan_id as nat) + " "@ + heading_ref(heading_id) + " ("@ + params_text(params) + ")"@ + rels_text(rels),
            InstView::Dml { plan_id, params } => "dml plan_"@ + decimal(plan_id as nat) + " ("@ + params_text(params) + ")"@,
            InstView::InsertFrom { plan_id, src, heading_id } => "insert_from plan_"@ + decimal(plan_id as nat) + " "@ + value_text(src) + " "@ + heading_ref(heading_id),
        }
    }
}

impl TerminatorView {
    /// The end of a block on one line.
    pub open spec fn text(self) -> Seq<char> {
        match self {
            TerminatorView::Return(None) => "return"@,
            TerminatorView::Return(Some(v)) => "return "@ + value_text(v),
            TerminatorView::CondBr { cond, then_block, else_block } => "condbr "@ + value_text(cond)
                + " -> "@ + block_text(then_block) + ", "@ + block_text(else_block),
            TerminatorView::Br { target, args } => if args.len() == 0 {
                "br "@ + block_text(target)
            } else {
                "br "@ + block_text(target) + "("@ + values_text(args) + ")"@
            },
            TerminatorView::Unreachable => "unreachable"@,
        }
    }
}

/// `name: type` with commas between them.
pub open spec fn typed_text(ps: Seq<(Seq<char>, ProcTypeView)>) -> Seq<char> {
    joined(Seq::new(ps.len(), |i: int| ps[i].0 + ": "@ + ps[i].1.text()), ", "@)
}

/// The block parameters under their value names.
pub open spec fn block_params(ps: Seq<(ValueId, ProcTypeView)>) -> Seq<(Seq<char>, ProcTypeView)> {
    Seq::new(ps.len(), |i: int| (value_text(ps[i].0), ps[i].1))
}

/// One line for each instruction.
pub open spec fn inst_lines(insts: Seq<InstView>) -> Seq<char>
    decreases insts.len(),
{
    if insts.len() == 0 {
        Seq::empty()
    } else {
        inst_lines(insts.drop_last()) + ("        "@ + insts.last().text() + "\n"@)
    }
}

impl BlockView {
    /// The block's label with its parameters, its instructions and its end.
    pub open spec fn text(self) -> Seq<char> {
        let label = if self.params.len() == 0 {
            "    "@ + block_text(self.id) + ":\n"@
        } else {
            "    "@ + block_text(self.id) + "("@ + typed_text(block_params(self.params)) + "):\n"@
        };
        label + inst_lines(self.insts) + "        "@ + self.terminator.text()
    }
}

/// One paragraph for each block.
pub open spec fn block_lines(blocks: Seq<BlockView>) -> Seq<char>
    decreases blocks.len(),
{
    if blocks.len() == 0 {
        Seq::empty()
    } else {
        block_lines(blocks.drop_last()) + (blocks.last().text() + "\n"@)
    }
}

impl FunctionView {
    /// The signature under the linkage name for a function that is defined
    /// elsewhere; the signature and the blocks for one that is not.
    pub open spec fn text(self) -> Seq<char> {
        if self.blocks.len() == 0 {
            "  extern fn "@ + self.linkage_name + "("@ + typed_text(self.params) + ") -> "@
                + self.return_type.text()
        } else {
            "  fn "@ + self.name + "("@ + typed_text(self.params) + ") -> "@
                + self.return_type.text() + " {\n"@ + block_lines(self.blocks) + "  }"@
        }
    }
}

/// One line for each heading.
pub open spec fn heading_lines(hs: Seq<HeadingView>) -> Seq<char>
    decreases hs.len(),
{
    if hs.len() == 0 {
        Seq::empty()
    } else {
        heading_lines(hs.drop_last()) + ("  heading_"@ + decimal((hs.len() - 1) as nat) + " = "@
            + heading_text(hs.last()) + "\n"@)
    }
}

/// One line for each public relvar.
pub open spec fn relvar_lines(rs: Seq<RelvarView>) -> Seq<char>
    decreases rs.len(),
{
    if rs.len() == 0 {
        Seq::empty()
    } else {
        relvar_lines(rs.drop_last()) + ("  public_relvar "@ + rs.last().name + " : "@ + heading_ref(
            rs.last().heading_id,
        ) + " table \""@ + rs.last().table_name + "\"\n"@)
    }
}

/// One line for each plan.
pub open spec fn plan_lines(ps: Seq<PlanView>) -> Seq<char>
    decreases ps.len(),
{
    if ps.len() == 0 {
        Seq::empty()
    } else {
        plan_lines(ps.drop_last()) + ("  plan plan_"@ + decimal(ps.last().plan_id as nat)
            + " db \""@ + ps.last().db_name + "\" "@ + heading_ref(ps.last().result_heading_id)
            + " params "@ + decimal(ps.last().param_count as nat) + " sql \""@ + ps.last().sql
            + "\"\n"@)
    }
}

/// One paragraph for each function.
pub open spec fn function_lines(fs: Seq<FunctionView>) -> Seq<char>
    decreases fs.len(),
{
    if fs.len() == 0 {
        Seq::empty()
    } else {
        function_lines(fs.drop_last()) + (fs.last().text() + "\n"@)
    }
}

/// A section of a module: its lines and, when there are any, an empty line.
pub open spec fn section(lines: Seq<char>, count: nat) -> Seq<char> {
    if count == 0 {
        lines
    } else {
        lines + "\n"@
    }
}

/// The module: its headings, public relvars, plans and functions.
pub open spec fn module_text(
    program_name: Name,
    headings: Seq<HeadingView>,
    relvars: Seq<RelvarView>,
    plans: Seq<PlanView>,
    functions: Seq<FunctionView>,
) -> Seq<char> {
    "module "@ + program_name + " {\n"@ + section(heading_lines(headings), headings.len())
        + section(relvar_lines(relvars), relvars.len()) + section(plan_lines(plans), plans.len())
        + function_lines(functions) + "}"@
}

fn render_value(v: ValueId) -> (s: String)
    ensures
        s@ == value_text(v),
{
    let mut s = "%".to_owned();
    s.append(decimal_text(v.0 as u64).as_str());
    s
}

fn render_heading_ref(h: HeadingId) -> (s: String)
    ensures
        s@ == heading_ref(h),
{
    let mut s = "heading_".to_owned();
    s.append(decimal_text(h.0 as u64).as_str());
    s
}

impl ValueId {
    /// `%<n>`.
    pub fn to_string(&self) -> (s: String)
        ensures
            s@ == value_text(*self),
    {
        render_value(*self)
    }
}

impl BlockId {
    /// `block_<n>`.
    pub fn to_string(&self) -> (s: String)
        ensures
            s@ == block_text(*self),
    {
        let mut s = "block_".to_owned();
        s.append(decimal_text(self.0 as u64).as_str());
        s
    }
}

impl Type {
    /// The type as it is written in source text.
    pub fn to_string(&self) -> (s: String)
        ensures
            s@ == self@.text(),
        decreases self@,
    {
        match self {
            Type::Integer => "Integer".to_owned(),
            Type::Rational => "Rational".to_owned(),
            Type::Approximate => "Approximate".to_owned(),
            Type::Text => "Text".to_owned(),
            Type::Character => "Character".to_owned(),
            Type::Binary => "Binary".to_owned(),
            Type::Byte => "Byte".to_owned(),
            Type::Boolean => "Boolean".to_owned(),
            Type::Tuple(h) => {
                proof {
                    assert(decreases_to!(self@ => self@->Tuple_0));
                }
                let mut s = "Tuple ".to_owned();
                s.append(h.to_string().as_str());
                s
            },
            Type::Relation(h) => {
                proof {
                    assert(decreases_to!(self@ => self@->Relation_0));
                }
                let mut s = "Relation ".to_owned();
                s.append(h.to_string().as_str());
                s
            },
            Type::FormatText => "FormatText".to_owned(),
            Type::Sequence(t) => {
                proof {
                    assert(decreases_to!(self@ => self@->Sequence_0));
                }
                let mut s = "Sequence ".to_owned();
                s.append(t.to_string().as_str());
                s
            },
            Type::Unknown => "Unknown".to_owned(),
        }
    }
}

impl Heading {
    /// `{name: type, ...}`.
    pub fn to_string(&self) -> (s: String)
        ensures
            s@ == heading_text(self@),
        decreases self@,
    {
        let attrs = self.attrs();
        let ghost h = self@;
        let mut parts: Vec<String> = Vec::new();
        let mut i: usize = 0;
        while i < attrs.len()
            invariant
                i <= attrs.len(),
                h == self@,
                attrs_view(attrs@) == h,
                parts.len() == i,
                forall|j: int|
                    0 <= j < i ==> (#[trigger] parts@[j])@ == h[j].0 + ": "@ + h[j].1.text(),
            decreases attrs.len() - i,
        {
            proof {
                assert(h[i as int] == attrs_view(attrs@)[i as int]);
                assert(decreases_to!(h => h[i as int]));
                assert(decreases_to!(h[i as int] => h[i as int].1));
            }
            let mut s = attrs[i].0.clone();
            s.append(": ");
            s.append(attrs[i].1.to_string().as_str());
            parts.push(s);
            i += 1;
        }
        let mut s = "{".to_owned();
        s.append(join_texts(&parts, ", ").as_str());
        s.append("}");
        proof {
            assert(names_of(parts@) =~= attr_texts(h));
        }
        s
    }
}

impl ProcType {
    /// The type's name with what it is made of.
    pub fn to_string(&self) -> (s: String)
        ensures
            s@ == self@.text(),
    {
        self.render()
    }

    fn render(&self) -> (s: String)
        ensures
            s@ == self@.text(),
        decreases self,
    {
        match self {
            ProcType::Integer => "Integer".to_owned(),
            ProcType::Rational => "Rational".to_owned(),
            ProcType::Approximate => "Approximate".to_owned(),
            ProcType::Text => "Text".to_owned(),
            ProcType::Character => "Character".to_owned(),
            ProcType::Binary => "Binary".to_owned(),
            ProcType::Byte => "Byte".to_owned(),
            ProcType::Boolean => "Boolean".to_owned(),
            ProcType::Unit => "Unit".to_owned(),
            ProcType::Pointer => "Pointer".to_owned(),
            ProcType::Tuple(h) => {
                let mut s = "Tuple ".to_owned();
                s.append(h.to_string().as_str());
                s
            },
            ProcType::Relation(id) => {
                let mut s = "Relation ".to_owned();
                s.append(render_heading_ref(*id).as_str());
                s
            },
            ProcType::Sequence(t) => {
                let mut s = "Sequence ".to_owned();
                s.append(t.render().as_str());
                s
            },
        }
    }
}

fn render_byte(b: u8) -> (s: String)
    ensures
        s@ == byte_text(b),
{
    if b == 10 {
        "\\n".to_owned()
    } else if b == 13 {
        "\\r".to_owned()
    } else if b == 9 {
        "\\t".to_owned()
    } else if b == 34 {
        "\\\"".to_owned()
    } else if b == 92 {
        "\\\\".to_owned()
    } else if 0x20 <= b && b <= 0x7e {
        let mut s = String::new();
        s.push(b as char);
        assert(s@ =~= seq![b as char]);
        s
    } else {
        let mut s = "\\x".to_owned();
        s.push(crate::text::digit_char(b / 16));
        s.push(crate::text::digit_char(b % 16));
        assert(s@ =~= byte_text(b));
        s
    }
}

fn render_bytes(bytes: &Vec<u8>) -> (s: String)
    ensures
        s@ == bytes_text(bytes@),
{
    let mut s = String::new();
    let mut i: usize = 0;
    while i < bytes.len()
        invariant
            i <= bytes.len(),
            s@ == bytes_text(bytes@.take(i as int)),
        decreases bytes.len() - i,
    {
        s.append(render_byte(bytes[i]).as_str());
        proof {
            assert(bytes@.take(i as int + 1).drop_last() =~= bytes@.take(i as int));
            assert(bytes@.take(i as int + 1).last() == bytes@[i as int]);
        }
        i += 1;
    }
    assert(bytes@.take(i as int) =~= bytes@);
    s
}

impl Const {
    /// The constant as a literal.
    pub fn to_string(&self) -> (s: String)
        ensures
            s@ == self@.text(),
    {
        self.render()
    }

    fn render(&self) -> (s: String)
        ensures
            s@ == self@.text(),
    {
        match self {
            Const::Integer(n) => signed_text(*n),
            Const::Text(bytes) => {
                let mut s = "\"".to_owned();
                s.append(render_bytes(bytes).as_str());
                s.append("\"");
                s
            },
            Const::Character(cp) => {
                let mut s = "'".to_owned();
                s.append(escaped_text(*cp).as_str());
                s.append("'");
                s
            },
            Const::Approximate(a) => a.notation.clone(),
            Const::Rational(n, d) => {
                let mut s = signed_text(*n);
                s.append("/");
                s.append(signed_text(*d).as_str());
                s
            },
            Const::Boolean(b) => bool_text(*b),
            Const::Unit => "{}".to_owned(),
        }
    }
}

fn render_values(vs: &Vec<ValueId>) -> (s: String)
    ensures
        s@ == values_text(vs@),
{
    let mut parts: Vec<String> = Vec::new();
    let mut i: usize = 0;
    while i < vs.len()
        invariant
            i <= vs.len(),
            parts.len() == i,
            forall|j: int| 0 <= j < i ==> (#[trigger] parts@[j])@ == value_text(vs@[j]),
        decreases vs.len() - i,
    {
        parts.push(render_value(vs[i]));
        i += 1;
    }
    assert(names_of(parts@) =~= Seq::new(vs@.len(), |i: int| value_text(vs@[i])));
    join_texts(&parts, ", ")
}

fn render_fields(fs: &Vec<(String, ValueId)>) -> (s: String)
    ensures
        s@ == fields_text(named_values(fs@)),
{
    let ghost all = named_values(fs@);
    let mut parts: Vec<String> = Vec::new();
    let mut i: usize = 0;
    while i < fs.len()
        invariant
            i <= fs.len(),
            all == named_values(fs@),
            parts.len() == i,
            forall|j: int|
                0 <= j < i ==> (#[trigger] parts@[j])@ == all[j].0 + ": "@ + value_text(all[j].1),
        decreases fs.len() - i,
    {
        let mut s = fs[i].0.clone();
        s.append(": ");
        s.append(render_value(fs[i].1).as_str());
        parts.push(s);
        i += 1;
    }
    assert(names_of(parts@) =~= Seq::new(
        all.len(),
        |i: int| all[i].0 + ": "@ + value_text(all[i].1),
    ));
    join_texts(&parts, ", ")
}

fn render_params(ps: &Vec<(ValueId, ProcType)>) -> (s: String)
    ensures
        s@ == params_text(typed_values(ps@)),
{
    let ghost all = typed_values(ps@);
    let mut parts: Vec<String> = Vec::new();
    let mut i: usize = 0;
    while i < ps.len()
        invariant
            i <= ps.len(),
            all == typed_values(ps@),
            parts.len() == i,
            forall|j: int| 0 <= j < i ==> (#[trigger] parts@[j])@ == value_text(all[j].0),
        decreases ps.len() - i,
    {
        parts.push(render_value(ps[i].0));
        i += 1;
    }
    assert(names_of(parts@) =~= Seq::new(all.len(), |i: int| value_text(all[i].0)));
    join_texts(&parts, ", ")
}

fn render_rels(rs: &Vec<(ValueId, HeadingId)>) -> (s: String)
    ensures
        s@ == rels_text(rs@),
{
    if rs.len() == 0 {
        return String::new();
    }
    let mut parts: Vec<String> = Vec::new();
    let mut i: usize = 0;
    while i < rs.len()
        invariant
            i <= rs.len(),
            parts.len() == i,
            forall|j: int|
                0 <= j < i ==> (#[trigger] parts@[j])@ == value_text(rs@[j].0) + " "@ + heading_ref(
                    rs@[j].1,
                ),
        decreases rs.len() - i,
    {
        let mut s = render_value(rs[i].0);
        s.append(" ");
        s.append(render_heading_ref(rs[i].1).as_str());
        parts.push(s);
        i += 1;
    }
    assert(names_of(parts@) =~= Seq::new(
        rs@.len(),
        |i: int| value_text(rs@[i].0) + " "@ + heading_ref(rs@[i].1),
    ));
    let mut s = " rels (".to_owned();
    s.append(join_texts(&parts, ", ").as_str());
    s.append(")");
    s
}

fn render_numbers(ns: &Vec<u32>) -> (s: String)
    ensures
        s@ == numbers_text(ns@),
{
    let mut parts: Vec<String> = Vec::new();
    let mut i: usize = 0;
    while i < ns.len()
        invariant
            i <= ns.len(),
            parts.len() == i,
            forall|j: int| 0 <= j < i ==> (#[trigger] parts@[j])@ == decimal(ns@[j] as nat),
        decreases ns.len() - i,
    {
        parts.push(decimal_text(ns[i] as u64));
        i += 1;
    }
    assert(names_of(parts@) =~= Seq::new(ns@.len(), |i: int| decimal(ns@[i] as nat)));
    let mut s = "[".to_owned();
    s.append(join_texts(&parts, ", ").as_str());
    s.append("]");
    s
}

fn render_dst(dst: Option<ValueId>) -> (s: String)
    ensures
        s@ == dst_text(dst),
{
    match dst {
        Some(v) => {
            let mut s = render_value(v);
            s.append(" = ");
            s
        },
        None => String::new(),
    }
}

fn render_scalar_op(op: ScalarOp) -> (s: &'static str)
    ensures
        s@ == scalar_op_text(op),
{
    match op {
        ScalarOp::Eq => "eq",
        ScalarOp::NotEq => "ne",
        ScalarOp::Lt => "lt",
        ScalarOp::Gt => "gt",
        ScalarOp::LtEq => "le",
        ScalarOp::GtEq => "ge",
        ScalarOp::And => "and",
        ScalarOp::Or => "or",
        ScalarOp::Not => "not",
        ScalarOp::Add => "add",
        ScalarOp::Sub => "sub",
        ScalarOp::Mul => "mul",
        ScalarOp::Div => "sdiv",
        ScalarOp::RatioFromInts => "ratio_from_ints",
        ScalarOp::RationalAdd => "rat_add",
        ScalarOp::RationalSub => "rat_sub",
        ScalarOp::RationalMul => "rat_mul",
        ScalarOp::RationalDiv => "rat_div",
        ScalarOp::Concat => "concat",
    }
}

impl ScalarOp {
    /// The operator's name.
    pub fn to_string(&self) -> (s: String)
        ensures
            s@ == scalar_op_text(*self),
    {
        render_scalar_op(*self).to_owned()
    }
}

fn render_rel_test(op: RelCmpOp) -> (s: &'static str)
    ensures
        s@ == rel_test_text(op),
{
    match op {
        RelCmpOp::Eq => "rel_eq",
        RelCmpOp::Subset { proper } => if proper {
            "rel_proper_subset"
        } else {
            "rel_subset"
        },
    }
}

impl Inst {
    /// The instruction on one line.
    pub fn to_string(&self) -> (s: String)
        ensures
            s@ == self@.text(),
    {
        match self {
            Inst::Const { dst, value, ty } => {
                let mut s = render_value(*dst);
                s.append(" = const ");
                s.append(ty.render().as_str());
                s.append(" ");
                s.append(value.render().as_str());
                s
            },
            Inst::Call { dst, callee, args, .. } => {
                let mut s = render_dst(*dst);
                s.append("call ");
                s.append(callee.as_str());
                s.append("(");
                s.append(render_values(args).as_str());
                s.append(")");
                s
            },
            Inst::TupleLit { dst, fields, .. } => {
                let mut s = render_value(*dst);
                s.append(" = tuple_lit {");
                s.append(render_fields(fields).as_str());
                s.append("}");
                s
            },
            Inst::TupleField { dst, src, field_name, .. } => {
                let mut s = render_value(*dst);
                s.append(" = field ");
                s.append(render_value(*src).as_str());
                s.append(".");
                s.append(field_name.as_str());
                s
            },
            Inst::TupleBox { dst, src, heading_id } => {
                let mut s = render_value(*dst);
                s.append(" = tuple_box ");
                s.append(render_heading_ref(*heading_id).as_str());
                s.append(" ");
                s.append(render_value(*src).as_str());
                s
            },
            Inst::TupleUnbox { dst, src, heading_id } => {
                let mut s = render_value(*dst);
                s.append(" = tuple_unbox ");
                s.append(render_heading_ref(*heading_id).as_str());
                s.append(" ");
                s.append(render_value(*src).as_str());
                s
            },
            Inst::RelationLit { dst, tuples, heading_id } => {
                let mut s = render_value(*dst);
                s.append(" = relation_lit ");
                s.append(render_heading_ref(*heading_id).as_str());
                s.append(" {");
                s.append(render_values(tuples).as_str());
                s.append("}");
                s
            },
            Inst::SequenceLit { dst, elements, heading_id } => {
                let mut s = render_value(*dst);
                s.append(" = sequence_lit ");
                s.append(render_heading_ref(*heading_id).as_str());
                s.append(" [");
                s.append(render_values(elements).as_str());
                s.append("]");
                s
            },
            Inst::Retain { src } => {
                let mut s = "retain ".to_owned();
                s.append(render_value(*src).as_str());
                s
            },
            Inst::Release { src } => {
                let mut s = "release ".to_owned();
                s.append(render_value(*src).as_str());
                s
            },
            Inst::WriteRelation { rel, heading_id } => {
                let mut s = "write_relation ".to_owned();
                s.append(render_value(*rel).as_str());
                s.append(" ");
                s.append(render_heading_ref(*heading_id).as_str());
                s
            },
            Inst::ScalarOp { dst, op, lhs, rhs, .. } => {
                let mut s = render_value(*dst);
                s.append(" = scalar_op ");
                s.append(render_scalar_op(*op));
                s.append(" ");
                s.append(render_value(*lhs).as_str());
                s.append(" ");
                s.append(render_value(*rhs).as_str());
                s
            },
            Inst::CharToText { dst, src } => {
                let mut s = render_value(*dst);
                s.append(" = char_to_text ");
                s.append(render_value(*src).as_str());
                s
            },
            Inst::AttrLoad { dst, src, offset, attr_type } => {
                let mut s = render_value(*dst);
                s.append(" = attr_load ");
                s.append(render_value(*src).as_str());
                s.append("+");
                s.append(decimal_text(*offset as u64).as_str());
                s.append(" : ");
                s.append(attr_type.render().as_str());
                s
            },
            Inst::AttrStore { record, offset, value, attr_type } => {
                let mut s = "attr_store ".to_owned();
                s.append(render_value(*record).as_str());
                s.append("+");
                s.append(decimal_text(*offset as u64).as_str());
                s.append(" = ");
                s.append(render_value(*value).as_str());
                s.append(" : ");
                s.append(attr_type.render().as_str());
                s
            },
            Inst::Where { dst, src, predicate_linkage, heading_id } => {
                let mut s = render_value(*dst);
                s.append(" = where ");
                s.append(render_value(*src).as_str());
                s.append(" by ");
                s.append(predicate_linkage.as_str());
                s.append(" ");
                s.append(render_heading_ref(*heading_id).as_str());
                s
            },
            Inst::Extend { dst, src, helper_linkage, src_heading_id, result_heading_id } => {
                let mut s = render_value(*dst);
                s.append(" = extend ");
                s.append(render_value(*src).as_str());
                s.append(" by ");
                s.append(helper_linkage.as_str());
                s.append(" ");
                s.append(render_heading_ref(*src_heading_id).as_str());
                s.append(" -> ");
                s.append(render_heading_ref(*result_heading_id).as_str());
                s
            },
            Inst::Project { dst, src, src_heading_id, result_heading_id } => {
                let mut s = render_value(*dst);
                s.append(" = project ");
                s.append(render_value(*src).as_str());
                s.append(" ");
                s.append(render_heading_ref(*src_heading_id).as_str());
                s.append(" -> ");
                s.append(render_heading_ref(*result_heading_id).as_str());
                s
            },
            Inst::Rename { dst, src, src_heading_id, result_heading_id, perm } => {
                let mut s = render_value(*dst);
                s.append(" = rename ");
                s.append(render_value(*src).as_str());
                s.append(" ");
                s.append(render_heading_ref(*src_heading_id).as_str());
                s.append(" -> ");
                s.append(render_heading_ref(*result_heading_id).as_str());
                s.append(" perm");
                s.append(render_numbers(perm).as_str());
                s
            },
            Inst::Load { dst, src, heading_id, keys } => {
                let mut s = render_value(*dst);
                s.append(" = load ");
                s.append(render_value(*src).as_str());
                s.append(" ");
                s.append(render_heading_ref(*heading_id).as_str());
                s.append(" keys");
                s.append(render_numbers(keys).as_str());
                s
            },
            Inst::Collect { dst, src, heading_id } => {
                let mut s = render_value(*dst);
                s.append(" = collect ");
                s.append(render_value(*src).as_str());
                s.append(" ");
                s.append(render_heading_ref(*heading_id).as_str());
                s
            },
            Inst::Restructure { dst, src, src_heading_id, result_heading_id } => {
                let mut s = render_value(*dst);
                s.append(" = restructure ");
                s.append(render_value(*src).as_str());
                s.append(" ");
                s.append(render_heading_ref(*src_heading_id).as_str());
                s.append(" -> ");
                s.append(render_heading_ref(*result_heading_id).as_str());
                s
            },
            Inst::Join { dst, lhs, rhs, lhs_heading_id, rhs_heading_id, result_heading_id } => {
                let mut s = render_value(*dst);
                s.append(" = join ");
                s.append(render_value(*lhs).as_str());
                s.append(" ");
                s.append(render_heading_ref(*lhs_heading_id).as_str());
                s.append(" ");
                s.append(render_value(*rhs).as_str());
                s.append(" ");
                s.append(render_heading_ref(*rhs_heading_id).as_str());
                s.append(" -> ");
                s.append(render_heading_ref(*result_heading_id).as_str());
                s
            },
            Inst::Union { dst, lhs, rhs, heading_id } => {
                let mut s = render_value(*dst);
                s.append(" = union ");
                s.append(render_value(*lhs).as_str());
                s.append(" ");
                s.append(render_value(*rhs).as_str());
                s.append(" -> ");
                s.append(render_heading_ref(*heading_id).as_str());
                s
            },
            Inst::Minus { dst, lhs, rhs, heading_id } => {
                let mut s = render_value(*dst);
                s.append(" = minus ");
                s.append(render_value(*lhs).as_str());
                s.append(" ");
                s.append(render_value(*rhs).as_str());
                s.append(" -> ");
                s.append(render_heading_ref(*heading_id).as_str());
                s
            },
            Inst::Gate { dst, src, cond, heading_id } => {
                let mut s = render_value(*dst);
                s.append(" = gate ");
                s.append(render_value(*src).as_str());
                s.append(" by ");
                s.append(render_value(*cond).as_str());
                s.append(" -> ");
                s.append(render_heading_ref(*heading_id).as_str());
                s
            },
            Inst::Otherwise { dst, primary, fallback } => {
                let mut s = render_value(*dst);
                s.append(" = otherwise ");
                s.append(render_value(*primary).as_str());
                s.append(" ");
                s.append(render_value(*fallback).as_str());
                s
            },
            Inst::TClose { dst, src, heading_id } => {
                let mut s = render_value(*dst);
                s.append(" = tclose ");
                s.append(render_value(*src).as_str());
                s.append(" -> ");
                s.append(render_heading_ref(*heading_id).as_str());
                s
            },
            Inst::RelCompare { dst, op, lhs, rhs, heading_id } => {
                let mut s = render_value(*dst);
                s.append(" = ");
                s.append(render_rel_test(*op));
                s.append(" ");
                s.append(render_value(*lhs).as_str());
                s.append(" ");
                s.append(render_value(*rhs).as_str());
                s.append(" @ ");
                s.append(render_heading_ref(*heading_id).as_str());
                s
            },
            Inst::Extract { dst, src, heading_id } => {
                let mut s = render_value(*dst);
                s.append(" = extract ");
                s.append(render_value(*src).as_str());
                s.append(" ");
                s.append(render_heading_ref(*heading_id).as_str());
                s
            },
            Inst::RelvarSlotInit { name, heading_id } => {
                let mut s = "relvar_slot_init ".to_owned();
                s.append(name.as_str());
                s.append(" ");
                s.append(render_heading_ref(*heading_id).as_str());
                s
            },
            Inst::RelvarSlotRelease { name } => {
                let mut s = "relvar_slot_release ".to_owned();
                s.append(name.as_str());
                s
            },
            Inst::RelvarRead { dst, name, heading_id } => {
                let mut s = render_value(*dst);
                s.append(" = relvar_read ");
                s.append(name.as_str());
                s.append(" ");
                s.append(render_heading_ref(*heading_id).as_str());
                s
            },
            Inst::PrivateRelvarSlotInit { name, heading_id } => {
                let mut s = "private_relvar_slot_init ".to_owned();
                s.append(name.as_str());
                s.append(" ");
                s.append(render_heading_ref(*heading_id).as_str());
                s
            },
            Inst::RelvarSlotStore { name, value } => {
                let mut s = "relvar_slot_store ".to_owned();
                s.append(name.as_str());
                s.append(" ");
                s.append(render_value(*value).as_str());
                s
            },
            Inst::RegisterDatabase => {
                "register_database".to_owned()
            },
            Inst::RegisterPlan { plan_id } => {
                let mut s = "register_plan plan_".to_owned();
                s.append(decimal_text(*plan_id as u64).as_str());
                s
            },
            Inst::Query { dst, plan_id, params, rels, heading_id } => {
                let mut s = render_value(*dst);
                s.append(" = query plan_");
                s.append(decimal_text(*plan_id as u64).as_str());
                s.append(" ");
                s.append(render_heading_ref(*heading_id).as_str());
                s.append(" (");
                s.append(render_params(params).as_str());
                s.append(")");
                s.append(render_rels(rels).as_str());
                s
            },
            Inst::Dml { plan_id, params } => {
                let mut s = "dml plan_".to_owned();
                s.append(decimal_text(*plan_id as u64).as_str());
                s.append(" (");
                s.append(render_params(params).as_str());
                s.append(")");
                s
            },
            Inst::InsertFrom { plan_id, src, heading_id } => {
                let mut s = "insert_from plan_".to_owned();
                s.append(decimal_text(*plan_id as u64).as_str());
                s.append(" ");
                s.append(render_value(*src).as_str());
                s.append(" ");
                s.append(render_heading_ref(*heading_id).as_str());
                s
            },
        }
    }
}

impl Terminator {
    /// The end of a block on one line.
    pub fn to_string(&self) -> (s: String)
        ensures
            s@ == self@.text(),
    {
        match self {
            Terminator::Return(None) => "return".to_owned(),
            Terminator::Return(Some(v)) => {
                let mut s = "return ".to_owned();
                s.append(render_value(*v).as_str());
                s
            },
            Terminator::CondBr { cond, then_block, else_block } => {
                let mut s = "condbr ".to_owned();
                s.append(render_value(*cond).as_str());
                s.append(" -> ");
                s.append(then_block.to_string().as_str());
                s.append(", ");
                s.append(else_block.to_string().as_str());
                s
            },
            Terminator::Br { target, args } => {
                let mut s = "br ".to_owned();
                s.append(target.to_string().as_str());
                if args.len() != 0 {
                    s.append("(");
                    s.append(render_values(args).as_str());
                    s.append(")");
                }
                s
            },
            Terminator::Unreachable => "unreachable".to_owned(),
        }
    }
}

fn render_typed(names: &Vec<String>, types: &Vec<ProcType>) -> (s: String)
    requires
        names.len() == types.len(),
    ensures
        s@ == typed_text(Seq::new(names@.len(), |i: int| (names@[i]@, types@[i]@))),
{
    let ghost all = Seq::new(names@.len(), |i: int| (names@[i]@, types@[i]@));
    let mut parts: Vec<String> = Vec::new();
    let mut i: usize = 0;
    while i < names.len()
        invariant
            i <= names.len(),
            names.len() == types.len(),
            all == Seq::new(names@.len(), |i: int| (names@[i]@, types@[i]@)),
            parts.len() == i,
            forall|j: int| 0 <= j < i ==> (#[trigger] parts@[j])@ == all[j].0 + ": "@ + all[j].1.text(),
        decreases names.len() - i,
    {
        let mut s = names[i].clone();
        s.append(": ");
        s.append(types[i].render().as_str());
        parts.push(s);
        i += 1;
    }
    assert(names_of(parts@) =~= Seq::new(all.len(), |i: int| all[i].0 + ": "@ + all[i].1.text()));
    join_texts(&parts, ", ")
}

fn render_signature(params: &Vec<(String, ProcType)>) -> (s: String)
    ensures
        s@ == typed_text(params_view(params@)),
{
    let mut names: Vec<String> = Vec::new();
    let mut types: Vec<ProcType> = Vec::new();
    let mut i: usize = 0;
    while i < params.len()
        invariant
            i <= params.len(),
            names.len() == i,
            types.len() == i,
            forall|j: int| 0 <= j < i ==> (#[trigger] names@[j])@ == params@[j].0@,
            forall|j: int| 0 <= j < i ==> (#[trigger] types@[j])@ == params@[j].1@,
        decreases params.len() - i,
    {
        names.push(params[i].0.clone());
        types.push(params[i].1.clone());
        i += 1;
    }
    assert(params_view(params@) =~= Seq::new(names@.len(), |i: int| (names@[i]@, types@[i]@)));
    render_typed(&names, &types)
}

fn render_block_params(params: &Vec<(ValueId, ProcType)>) -> (s: String)
    ensures
        s@ == typed_text(block_params(typed_values(params@))),
{
    let mut names: Vec<String> = Vec::new();
    let mut types: Vec<ProcType> = Vec::new();
    let mut i: usize = 0;
    while i < params.len()
        invariant
            i <= params.len(),
            names.len() == i,
            types.len() == i,
            forall|j: int| 0 <= j < i ==> (#[trigger] names@[j])@ == value_text(params@[j].0),
            forall|j: int| 0 <= j < i ==> (#[trigger] types@[j])@ == params@[j].1@,
        decreases params.len() - i,
    {
        names.push(render_value(params[i].0));
        types.push(params[i].1.clone());
        i += 1;
    }
    assert(block_params(typed_values(params@)) =~= Seq::new(
        names@.len(),
        |i: int| (names@[i]@, types@[i]@),
    ));
    render_typed(&names, &types)
}

impl BasicBlock {
    /// The block's label with its parameters, its instructions and its end.
    pub fn to_string(&self) -> (s: String)
        ensures
            s@ == self@.text(),
    {
        let mut s = "    ".to_owned();
        s.append(self.id.to_string().as_str());
        if self.params.len() == 0 {
            s.append(":\n");
        } else {
            s.append("(");
            s.append(render_block_params(&self.params).as_str());
            s.append("):\n");
        }
        let ghost insts = self@.insts;
        let mut body = String::new();
        let mut i: usize = 0;
        assert(insts.take(0) =~= Seq::<InstView>::empty());
        while i < self.insts.len()
            invariant
                i <= self.insts.len(),
                insts == self@.insts,
                body@ == inst_lines(insts.take(i as int)),
            decreases self.insts.len() - i,
        {
            let mut line = "        ".to_owned();
            line.append(self.insts[i].to_string().as_str());
            line.append("\n");
            body.append(line.as_str());
            proof {
                assert(insts.take(i as int + 1).drop_last() =~= insts.take(i as int));
                assert(insts.take(i as int + 1).last() == self.insts@[i as int]@);
            }
            i += 1;
        }
        assert(insts.take(i as int) =~= insts);
        s.append(body.as_str());
        s.append("        ");
        s.append(self.terminator.to_string().as_str());
        s
    }
}

impl Function {
    /// The signature under the linkage name for a function that is defined
    /// elsewhere; the signature and the blocks for one that is not.
    pub fn to_string(&self) -> (s: String)
        ensures
            s@ == self@.text(),
    {
        if self.is_extern() {
            let mut s = "  extern fn ".to_owned();
            s.append(self.linkage_name.as_str());
            s.append("(");
            s.append(render_signature(&self.params).as_str());
            s.append(") -> ");
            s.append(self.return_type.render().as_str());
            return s;
        }
        let mut s = "  fn ".to_owned();
        s.append(self.name.as_str());
        s.append("(");
        s.append(render_signature(&self.params).as_str());
        s.append(") -> ");
        s.append(self.return_type.render().as_str());
        s.append(" {\n");
        let ghost blocks = self@.blocks;
        let mut body = String::new();
        let mut i: usize = 0;
        assert(blocks.take(0) =~= Seq::<BlockView>::empty());
        while i < self.blocks.len()
            invariant
                i <= self.blocks.len(),
                blocks == self@.blocks,
                body@ == block_lines(blocks.take(i as int)),
            decreases self.blocks.len() - i,
        {
            let mut line = self.blocks[i].to_string();
            line.append("\n");
            body.append(line.as_str());
            proof {
                assert(blocks.take(i as int + 1).drop_last() =~= blocks.take(i as int));
                assert(blocks.take(i as int + 1).last() == self.blocks@[i as int]@);
            }
            i += 1;
        }
        assert(blocks.take(i as int) =~= blocks);
        s.append(body.as_str());
        s.append("  }");
        s
    }
}

fn render_headings(hs: &Vec<Heading>) -> (s: String)
    ensures
        s@ == section(heading_lines(headings_view(hs@)), hs@.len()),
{
    let ghost all = headings_view(hs@);
    let mut s = String::new();
    let mut i: usize = 0;
    assert(all.take(0) =~= Seq::<HeadingView>::empty());
    while i < hs.len()
        invariant
            i <= hs.len(),
            all == headings_view(hs@),
            s@ == heading_lines(all.take(i as int)),
        decreases hs.len() - i,
    {
        let mut line = "  heading_".to_owned();
        line.append(decimal_text(i as u64).as_str());
        line.append(" = ");
        line.append(hs[i].to_string().as_str());
        line.append("\n");
        s.append(line.as_str());
        proof {
            assert(all.take(i as int + 1).drop_last() =~= all.take(i as int));
            assert(all.take(i as int + 1).last() == hs@[i as int]@);
        }
        i += 1;
    }
    assert(all.take(i as int) =~= all);
    if hs.len() != 0 {
        s.append("\n");
    }
    s
}

fn render_relvars(rs: &Vec<PublicRelvarBinding>) -> (s: String)
    ensures
        s@ == section(relvar_lines(relvars_view(rs@)), rs@.len()),
{
    let ghost all = relvars_view(rs@);
    let mut s = String::new();
    let mut i: usize = 0;
    assert(all.take(0) =~= Seq::<RelvarView>::empty());
    while i < rs.len()
        invariant
            i <= rs.len(),
            all == relvars_view(rs@),
            s@ == relvar_lines(all.take(i as int)),
        decreases rs.len() - i,
    {
        let mut line = "  public_relvar ".to_owned();
        line.append(rs[i].name.as_str());
        line.append(" : ");
        line.append(render_heading_ref(rs[i].heading_id).as_str());
        line.append(" table \"");
        line.append(rs[i].table_name.as_str());
        line.append("\"\n");
        s.append(line.as_str());
        proof {
            assert(all.take(i as int + 1).drop_last() =~= all.take(i as int));
            assert(all.take(i as int + 1).last() == rs@[i as int]@);
        }
        i += 1;
    }
    assert(all.take(i as int) =~= all);
    if rs.len() != 0 {
        s.append("\n");
    }
    s
}

fn render_plans(ps: &Vec<PlanEntry>) -> (s: String)
    ensures
        s@ == section(plan_lines(plans_view(ps@)), ps@.len()),
{
    let ghost all = plans_view(ps@);
    let mut s = String::new();
    let mut i: usize = 0;
    assert(all.take(0) =~= Seq::<PlanView>::empty());
    while i < ps.len()
        invariant
            i <= ps.len(),
            all == plans_view(ps@),
            s@ == plan_lines(all.take(i as int)),
        decreases ps.len() - i,
    {
        let mut line = "  plan plan_".to_owned();
        line.append(decimal_text(ps[i].plan_id as u64).as_str());
        line.append(" db \"");
        line.append(ps[i].db_name.as_str());
        line.append("\" ");
        line.append(render_heading_ref(ps[i].result_heading_id).as_str());
        line.append(" params ");
        line.append(decimal_text(ps[i].param_count as u64).as_str());
        line.append(" sql \"");
        line.append(ps[i].sql.as_str());
        line.append("\"\n");
        s.append(line.as_str());
        proof {
            assert(all.take(i as int + 1).drop_last() =~= all.take(i as int));
            assert(all.take(i as int + 1).last() == ps@[i as int]@);
        }
        i += 1;
    }
    assert(all.take(i as int) =~= all);
    if ps.len() != 0 {
        s.append("\n");
    }
    s
}

fn render_functions(fs: &Vec<Function>) -> (s: String)
    ensures
        s@ == function_lines(functions_view(fs@)),
{
    let ghost all = functions_view(fs@);
    let mut s = String::new();
    let mut i: usize = 0;
    assert(all.take(0) =~= Seq::<FunctionView>::empty());
    while i < fs.len()
        invariant
            i <= fs.len(),
            all == functions_view(fs@),
            s@ == function_lines(all.take(i as int)),
        decreases fs.len() - i,
    {
        let mut line = fs[i].to_string();
        line.append("\n");
        s.append(line.as_str());
        proof {
            assert(all.take(i as int + 1).drop_last() =~= all.take(i as int));
            assert(all.take(i as int + 1).last() == fs@[i as int]@);
        }
        i += 1;
    }
    assert(all.take(i as int) =~= all);
    s
}

impl Module {
    /// The module: its headings, public relvars, plans and functions.
    pub fn to_string(&self) -> (s: String)
        ensures
            s@ == module_text(
                self.program_name@,
                headings_view(self.headings@),
                relvars_view(self.public_relvars@),
                plans_view(self.plans@),
                functions_view(self.functions@),
            ),
    {
        let mut s = "module ".to_owned();
        s.append(self.program_name.as_str());
        s.append(" {\n");
        s.append(render_headings(&self.headings).as_str());
        s.append(render_relvars(&self.public_relvars).as_str());
        s.append(render_plans(&self.plans).as_str());
        s.append(render_functions(&self.functions).as_str());
        s.append("}");
        s
    }
}

} // verus!
