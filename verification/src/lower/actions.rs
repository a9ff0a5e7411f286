//! The steps of lowering that look at no subexpression, carried out.

use crate::ast::{BinaryOp, Expr, ExprKind, Literal, TemplateChunk};
use crate::cut::{maybe_query, try_push, SqlQuery};
use crate::diag::{Diagnostic, Span};
use crate::ir::{
    named_values, params_view, typed_values, BlockId, Const, HeadingId, Inst, ProcType,
    ProcTypeView, ScalarOp, Terminator, ValueId,
};
use crate::layout::{layout_of, lays_out, lemma_offset, RecordLayout};
use crate::literals::{decode_char, decode_string, parse_integer};
use crate::lower::emit::{
    is_heap_managed, is_text, is_unit, one_param, one_value,
};
use crate::lower::kinds::{proc_type_from_cell, proc_type_from_type, type_from_proc};
use crate::lower::lowerer::{copy_values, maybe_rel, Lowerer};
use crate::lower::relational::{
    build_scalars, build_substitute_chain, compose_keep, contains_restrict, relvar_root_name,
};
use crate::lower::state::{
    chunks_view, copy_bytes, find_key, keys_of, name_index, names_in, put_in, Bound, SqlRequest,
    Stop, WritePolicy,
};
use crate::lower::steps::{
    assigned_by_statement, attempted, attrs_first, builtin, called, carried_first, cells_with,
    combined_values, complement, consumed_refs, current_values, element_type, expr_refs, extracted,
    field_read, formatted, fresh_first, guarded, has_placeholder, in_process, insert_field,
    introduced_first, introduced_names, joined_first, joined_texts, literal_lowered, loaded,
    loads_first, loop_closed, loop_opened, loop_var_bound, name_lowered, offered, operand_guarded,
    operator_of, order_keys, pairs_refs, param_names, pieces_first, printed, prior_values,
    public_updated, rebound, rebound_first, relation_made, release_cells, restructured,
    rows_shipped, scalar_applied, sequence_bounds, sequence_held, sequence_made, sorted_first,
    stored, stores_first, taken_over, temps_first, text_values, tuple_made, update_declined,
    updated_rel, var_params, widened, with_values, write_allowed, LoopVar, Vars,
};
use crate::rel_analysis::add_each;
use crate::rel_expr::{Predicate, RelExpr, StorageOrigin};
use crate::text::{before, comes_before, has_name, names_of, same_text, Name};
use crate::types::{attr_names, attrs_view, lookup_attr, Heading, HeadingView, Type};
use vstd::prelude::*;

verus! {

/// A variable with its value.
#[derive(Debug)]
pub struct Var {
    pub name: String,
    pub value: ValueId,
    pub ty: ProcType,
}

impl Var {
    pub open spec fn view(&self) -> (Name, Bound) {
        (self.name@, (self.value, self.ty@))
    }
}

/// What a list of variables stands for.
pub open spec fn vars_view(s: Seq<Var>) -> Vars {
    Seq::new(s.len(), |i: int| s[i]@)
}

/// What the loop gives its variable in each round.
pub enum RoundVar {
    Counter(String),
    Element { seq: ValueId, ty: ProcType, name: String },
}

impl RoundVar {
    pub open spec fn view(&self) -> LoopVar {
        match self {
            RoundVar::Counter(name) => LoopVar::Counter(name@),
            RoundVar::Element { seq, ty, name } => LoopVar::Element {
                seq: *seq,
                ty: ty@,
                name: name@,
            },
        }
    }
}

/// A text with a name in the middle.
pub fn text_about(head: &str, name: &str, tail: &str) -> (r: String)
    ensures
        r@ == head@ + name@ + tail@,
{
    let mut r = head.to_owned();
    r.append(name);
    r.append(tail);
    r
}

/// Whether the expression is a bare name.
pub fn is_name(e: &Expr) -> (r: bool)
    ensures
        r == (e.kind is NameRef),
{
    match &e.kind {
        ExprKind::NameRef(_) => true,
        _ => false,
    }
}

/// The scalar operator of a binary one.
pub fn scalar_operator(op: BinaryOp) -> (r: Option<ScalarOp>)
    ensures
        r == operator_of(op),
{
    match op {
        BinaryOp::Eq => Some(ScalarOp::Eq),
        BinaryOp::NotEq => Some(ScalarOp::NotEq),
        BinaryOp::Lt => Some(ScalarOp::Lt),
        BinaryOp::Gt => Some(ScalarOp::Gt),
        BinaryOp::LtEq => Some(ScalarOp::LtEq),
        BinaryOp::GtEq => Some(ScalarOp::GtEq),
        BinaryOp::And => Some(ScalarOp::And),
        BinaryOp::Or => Some(ScalarOp::Or),
        BinaryOp::Add => Some(ScalarOp::Add),
        BinaryOp::Sub => Some(ScalarOp::Sub),
        BinaryOp::Mul => Some(ScalarOp::Mul),
        BinaryOp::Div => Some(ScalarOp::Div),
        BinaryOp::Concat => Some(ScalarOp::Concat),
        _ => None,
    }
}

/// A built-in function: its symbol, its parameters and its return type.
pub fn lookup_builtin(name: &str) -> (r: Option<(&'static str, Vec<(String, ProcType)>, ProcType)>)
    ensures
        builtin(name@) == match r {
            Some(b) => Some((b.0@, params_view(b.1@), b.2@)),
            None => None::<(Name, Seq<(Name, ProcTypeView)>, ProcTypeView)>,
        },
{
    if same_text(name, "write_line") {
        Some(("coddl_write_line", one_param("message", ProcType::Text), ProcType::Unit))
    } else if same_text(name, "read_line") {
        Some(("coddl_read_line", one_param("prompt", ProcType::Text), ProcType::Text))
    } else if same_text(name, "cardinality") {
        Some(
            (
                "coddl_rc_length",
                one_param("self", ProcType::Relation(HeadingId(0))),
                ProcType::Integer,
            ),
        )
    } else {
        None
    }
}

/// The names of parameters.
pub fn names_of_params(params: &Vec<(String, ProcType)>) -> (r: Vec<String>)
    ensures
        names_of(r@) == param_names(params_view(params@)),
{
    let mut r: Vec<String> = Vec::new();
    let mut i: usize = 0;
    while i < params.len()
        invariant
            i <= params.len(),
            r.len() == i,
            forall|j: int| 0 <= j < i ==> (#[trigger] r@[j])@ == params@[j].0@,
        decreases params.len() - i,
    {
        r.push(params[i].0.clone());
        i += 1;
    }
    assert(names_of(r@) =~= param_names(params_view(params@)));
    r
}

/// Whether a piece of the template takes an argument.
pub fn takes_arguments(chunks: &Vec<TemplateChunk>) -> (r: bool)
    ensures
        r == has_placeholder(chunks_view(chunks@)),
{
    let ghost cs = chunks_view(chunks@);
    let mut i: usize = 0;
    while i < chunks.len()
        invariant
            i <= chunks.len(),
            cs == chunks_view(chunks@),
            forall|j: int| 0 <= j < i ==> !((#[trigger] cs[j]) is Placeholder),
        decreases chunks.len() - i,
    {
        if let TemplateChunk::Placeholder(_) = chunks[i] {
            assert(cs[i as int] is Placeholder);
            return true;
        }
        assert(!(cs[i as int] is Placeholder));
        i += 1;
    }
    false
}

/// The names without repetition, in the order of first occurrence.
pub fn unique_names(names: &Vec<String>) -> (r: Vec<String>)
    ensures
        names_of(r@) == add_each(Seq::empty(), names_of(names@)),
{
    let ghost ns = names_of(names@);
    let mut r: Vec<String> = Vec::new();
    let mut i: usize = 0;
    assert(names_of(r@) =~= Seq::empty());
    assert(add_each(Seq::empty(), ns.take(0)) =~= Seq::<Name>::empty());
    while i < names.len()
        invariant
            i <= names.len(),
            ns == names_of(names@),
            names_of(r@) == add_each(Seq::empty(), ns.take(i as int)),
        decreases names.len() - i,
    {
        proof {
            let t = ns.take(i as int + 1);
            assert(t.drop_last() =~= ns.take(i as int));
            assert(t.last() == names@[i as int]@);
        }
        if !has_name(&r, names[i].as_str()) {
            let ghost was = names_of(r@);
            r.push(names[i].clone());
            assert(names_of(r@) =~= was.push(names@[i as int]@));
        }
        i += 1;
    }
    assert(ns.take(i as int) =~= ns);
    r
}

/// The values that variables came with, behind others.
pub fn with_prior(first: Vec<ValueId>, vars: &Vec<Var>) -> (r: Vec<ValueId>)
    ensures
        r@ == first@ + prior_values(vars_view(vars@)),
{
    let ghost head = first@;
    let ghost vs = prior_values(vars_view(vars@));
    let mut r = first;
    let mut i: usize = 0;
    assert(r@ =~= head + vs.take(0));
    while i < vars.len()
        invariant
            i <= vars.len(),
            vs == prior_values(vars_view(vars@)),
            r@ == head + vs.take(i as int),
        decreases vars.len() - i,
    {
        r.push(vars[i].value);
        assert(vs[i as int] == vars@[i as int].value);
        assert(r@ =~= head + vs.take(i as int + 1));
        i += 1;
    }
    assert(vs.take(i as int) =~= vs);
    r
}

/// The typed values that variables came with, behind others.
pub fn with_params(first: Vec<(ValueId, ProcType)>, vars: &Vec<Var>) -> (r: Vec<
    (ValueId, ProcType),
>)
    ensures
        typed_values(r@) == typed_values(first@) + var_params(vars_view(vars@)),
{
    let ghost head = typed_values(first@);
    let ghost vs = var_params(vars_view(vars@));
    let mut r = first;
    let mut i: usize = 0;
    assert(typed_values(r@) =~= head + vs.take(0));
    while i < vars.len()
        invariant
            i <= vars.len(),
            vs == var_params(vars_view(vars@)),
            typed_values(r@) == head + vs.take(i as int),
        decreases vars.len() - i,
    {
        let ghost was = typed_values(r@);
        r.push((vars[i].value, vars[i].ty.clone()));
        proof {
            assert(vs[i as int] == (vars@[i as int].value, vars@[i as int].ty@));
            assert(typed_values(r@) =~= was.push(vs[i as int]));
            assert(typed_values(r@) =~= head + vs.take(i as int + 1));
        }
        i += 1;
    }
    assert(vs.take(i as int) =~= vs);
    r
}

/// The variables with other values.
pub fn vars_with_values(vars: &Vec<Var>, values: &Vec<ValueId>) -> (r: Vec<Var>)
    requires
        values.len() == vars.len(),
    ensures
        vars_view(r@) == with_values(vars_view(vars@), values@),
{
    let mut r: Vec<Var> = Vec::new();
    let mut i: usize = 0;
    while i < vars.len()
        invariant
            i <= vars.len(),
            values.len() == vars.len(),
            r.len() == i,
            forall|j: int|
                0 <= j < i ==> (#[trigger] r@[j])@ == (
                    vars@[j].name@,
                    (values@[j], vars@[j].ty@),
                ),
        decreases vars.len() - i,
    {
        r.push(Var { name: vars[i].name.clone(), value: values[i], ty: vars[i].ty.clone() });
        i += 1;
    }
    assert(vars_view(r@) =~= with_values(vars_view(vars@), values@));
    r
}

/// The place of a binding; the length when it is not there.
fn find_var(vars: &Vec<Var>, name: &str) -> (r: usize)
    ensures
        r == name_index(keys_of(vars_view(vars@)), name@),
        r <= vars.len(),
{
    let ghost names = keys_of(vars_view(vars@));
    let mut i: usize = 0;
    assert(names.skip(0) =~= names);
    while i < vars.len()
        invariant
            i <= vars.len(),
            names == keys_of(vars_view(vars@)),
            name_index(names, name@) == i + name_index(names.skip(i as int), name@),
        decreases vars.len() - i,
    {
        assert(names.skip(i as int)[0] == vars@[i as int].name@);
        if same_text(vars[i].name.as_str(), name) {
            return i;
        }
        assert(names.skip(i as int).drop_first() =~= names.skip(i as int + 1));
        i += 1;
    }
    i
}

/// Replaces the binding of a name, or adds it.
pub fn put_var(vars: &mut Vec<Var>, name: &str, value: ValueId, ty: ProcType)
    ensures
        vars_view(final(vars)@) == put_in(vars_view(old(vars)@), name@, (value, ty@)),
{
    let ghost was = vars_view(vars@);
    let i: usize = find_var(vars, name);
    let var = Var { name: name.to_owned(), value, ty };
    if i < vars.len() {
        vars.set(i, var);
        assert(vars_view(vars@) =~= was.update(i as int, (name@, (value, ty@))));
    } else {
        vars.push(var);
        assert(vars_view(vars@) =~= was.push((name@, (value, ty@))));
    }
}

fn insert_named(v: &mut Vec<(String, ValueId)>, name: &str, value: ValueId)
    ensures
        named_values(final(v)@) == insert_field(named_values(old(v)@), (name@, value)),
{
    let ghost was = named_values(v@);
    let n: usize = v.len();
    let mut p: usize = n;
    while p > 0 && comes_before(name, v[p - 1].0.as_str())
        invariant
            p <= n == v.len(),
            was == named_values(v@),
            forall|j: int| p <= j < was.len() ==> before(name@, (#[trigger] was[j]).0),
        decreases p,
    {
        p -= 1;
    }
    proof {
        lemma_insert_field(was, (name@, value), p as int);
    }
    v.insert(p, (name.to_owned(), value));
    assert(named_values(v@) =~= was.insert(p as int, (name@, value)));
}

proof fn lemma_insert_field(s: Seq<(Name, ValueId)>, f: (Name, ValueId), p: int)
    requires
        0 <= p <= s.len(),
        forall|j: int| p <= j < s.len() ==> before(f.0, (#[trigger] s[j]).0),
        p > 0 ==> !before(f.0, s[p - 1].0),
    ensures
        s.insert(p, f) == insert_field(s, f),
    decreases s.len(),
{
    if p == s.len() {
        assert(s.insert(p, f) =~= s.push(f));
    } else {
        let t = s.drop_last();
        assert forall|j: int| p <= j < t.len() implies before(f.0, (#[trigger] t[j]).0) by {
            assert(t[j] == s[j]);
        }
        lemma_insert_field(t, f, p);
        assert(before(f.0, s[s.len() - 1].0));
        assert(s.insert(p, f) =~= t.insert(p, f).push(s.last()));
    }
}

/// The fields in name order.
fn sort_fields(fields: &Vec<Var>) -> (r: Vec<(String, ValueId)>)
    ensures
        named_values(r@) == sorted_first(vars_view(fields@), fields@.len()),
{
    let mut r: Vec<(String, ValueId)> = Vec::new();
    let mut i: usize = 0;
    assert(named_values(r@) =~= Seq::empty());
    while i < fields.len()
        invariant
            i <= fields.len(),
            named_values(r@) == sorted_first(vars_view(fields@), i as nat),
        decreases fields.len() - i,
    {
        insert_named(&mut r, fields[i].name.as_str(), fields[i].value);
        i += 1;
    }
    r
}

proof fn lemma_attrs_prefix(fields: Vars, n: nat, m: nat)
    requires
        n <= m,
        attrs_first(fields, n) is None,
    ensures
        attrs_first(fields, m) is None,
    decreases m,
{
    if n < m {
        lemma_attrs_prefix(fields, n, (m - 1) as nat);
    }
}

/// The attributes of fields; none when one has no surface type.
fn field_attrs(fields: &Vec<Var>) -> (r: Option<Vec<(String, Type)>>)
    ensures
        attrs_first(vars_view(fields@), fields@.len()) == match r {
            Some(v) => Some(attrs_view(v@)),
            None => None::<HeadingView>,
        },
{
    let ghost vars = vars_view(fields@);
    let mut r: Vec<(String, Type)> = Vec::new();
    let mut i: usize = 0;
    assert(attrs_view(r@) =~= Seq::empty());
    while i < fields.len()
        invariant
            i <= fields.len(),
            vars == vars_view(fields@),
            attrs_first(vars, i as nat) == Some(attrs_view(r@)),
        decreases fields.len() - i,
    {
        assert(vars[i as int] == fields@[i as int]@);
        match type_from_proc(&fields[i].ty) {
            Some(t) => {
                let ghost was = attrs_view(r@);
                let ghost seen = (fields@[i as int].name@, t@);
                r.push((fields[i].name.clone(), t));
                assert(attrs_view(r@) =~= was.push(seen));
            },
            None => {
                proof {
                    lemma_attrs_prefix(vars, (i + 1) as nat, fields@.len());
                }
                return None;
            },
        }
        i += 1;
    }
    Some(r)
}

proof fn lemma_widened_prefix(
    h: HeadingView,
    names: Seq<Name>,
    values: Seq<Bound>,
    n: nat,
    m: nat,
)
    requires
        n <= m,
        widened(h, names, values, n) is None,
    ensures
        widened(h, names, values, m) is None,
    decreases m,
{
    if n < m {
        lemma_widened_prefix(h, names, values, n, (m - 1) as nat);
    }
}

/// New values' attributes behind those of the operand; none when one has no
/// surface type.
pub fn widen(h: &Heading, names: &Vec<String>, values: &Vec<(ValueId, ProcType)>) -> (r: Option<
    Vec<(String, Type)>,
>)
    requires
        names.len() == values.len(),
    ensures
        widened(h@, names_of(names@), typed_values(values@), values@.len()) == match r {
            Some(v) => Some(attrs_view(v@)),
            None => None::<HeadingView>,
        },
{
    let ghost ns = names_of(names@);
    let ghost vs = typed_values(values@);
    let mut r: Vec<(String, Type)> = crate::types::copy_attrs(h.attrs());
    let mut i: usize = 0;
    while i < values.len()
        invariant
            i <= values.len(),
            names.len() == values.len(),
            ns == names_of(names@),
            vs == typed_values(values@),
            widened(h@, ns, vs, i as nat) == Some(attrs_view(r@)),
        decreases values.len() - i,
    {
        assert(vs[i as int] == (values@[i as int].0, values@[i as int].1@));
        match type_from_proc(&values[i].1) {
            Some(t) => {
                let ghost was = attrs_view(r@);
                let ghost seen = (names@[i as int]@, t@);
                r.push((names[i].clone(), t));
                assert(attrs_view(r@) =~= was.push(seen));
            },
            None => {
                proof {
                    lemma_widened_prefix(h@, ns, vs, (i + 1) as nat, values@.len());
                }
                return None;
            },
        }
        i += 1;
    }
    Some(r)
}

/// Puts new values among the cells.
pub fn put_values(cells: &mut Vec<Var>, names: &Vec<String>, values: &Vec<(ValueId, ProcType)>)
    requires
        names.len() == values.len(),
    ensures
        vars_view(final(cells)@) == cells_with(
            vars_view(old(cells)@),
            names_of(names@),
            typed_values(values@),
            values@.len(),
        ),
{
    let ghost was = vars_view(cells@);
    let mut i: usize = 0;
    while i < values.len()
        invariant
            i <= values.len(),
            names.len() == values.len(),
            vars_view(cells@) == cells_with(
                was,
                names_of(names@),
                typed_values(values@),
                i as nat,
            ),
        decreases values.len() - i,
    {
        put_var(cells, names[i].as_str(), values[i].0, values[i].1.clone());
        i += 1;
    }
}

/// The type of a sequence's elements.
pub fn elements_of(ty: &ProcType) -> (r: ProcType)
    ensures
        r@ == element_type(ty@),
{
    match ty {
        ProcType::Sequence(elem) => (**elem).clone(),
        _ => ProcType::Unit,
    }
}

fn collect_refs(e: &Expr, into: &mut Vec<String>)
    ensures
        names_of(final(into)@) == names_of(old(into)@) + expr_refs(*e),
    decreases e,
{
    let ghost was = names_of(into@);
    match &e.kind {
        ExprKind::NameRef(name) => {
            into.push(name.clone());
        },
        ExprKind::Binary { lhs, rhs, .. } => {
            collect_refs(lhs, into);
            collect_refs(rhs, into);
        },
        ExprKind::Extract { operand } => {
            collect_refs(operand, into);
        },
        _ => {},
    }
    assert(names_of(into@) =~= was + expr_refs(*e));
}

/// The attributes of the heading that the values read.
pub fn consumed_attrs(pairs: &Vec<(String, Expr)>, h: &Heading) -> (r: Vec<String>)
    ensures
        names_of(r@) == consumed_refs(pairs@, h@),
{
    let mut all: Vec<String> = Vec::new();
    let mut i: usize = 0;
    assert(names_of(all@) =~= Seq::empty());
    while i < pairs.len()
        invariant
            i <= pairs.len(),
            names_of(all@) == pairs_refs(pairs@, i as nat),
        decreases pairs.len() - i,
    {
        collect_refs(&pairs[i].1, &mut all);
        i += 1;
    }
    let ghost ns = names_of(all@);
    let ghost keep = |n: Name| lookup_attr(h@, n) is Some;
    let mut r: Vec<String> = Vec::new();
    let mut j: usize = 0;
    proof {
        reveal_with_fuel(Seq::filter, 1);
        assert(names_of(r@) =~= Seq::empty());
    }
    while j < all.len()
        invariant
            j <= all.len(),
            ns == names_of(all@),
            keep == (|n: Name| lookup_attr(h@, n) is Some),
            names_of(r@) == ns.take(j as int).filter(keep),
        decreases all.len() - j,
    {
        proof {
            reveal_with_fuel(Seq::filter, 1);
            let t = ns.take(j as int + 1);
            assert(t.drop_last() =~= ns.take(j as int));
            assert(t.last() == all@[j as int]@);
        }
        if h.lookup(all[j].as_str()).is_some() {
            let ghost was = names_of(r@);
            r.push(all[j].clone());
            assert(names_of(r@) =~= was.push(all@[j as int]@));
        }
        j += 1;
    }
    assert(ns.take(j as int) =~= ns);
    r
}

/// The keys of the attributes of an order that the heading has.
fn keys_of_order(h: &Heading, order: &Vec<(String, bool)>) -> (r: Vec<u32>)
    ensures
        r@ == order_keys(h@, order@, order@.len()),
{
    let attrs = h.attrs();
    let mut r: Vec<u32> = Vec::new();
    let mut i: usize = 0;
    while i < order.len()
        invariant
            i <= order.len(),
            attrs_view(attrs@) == h@,
            r@ == order_keys(h@, order@, i as nat),
        decreases order.len() - i,
    {
        let place: usize = find_key(attrs, order[i].0.as_str());
        assert(names_in(attrs@) =~= attr_names(h@));
        if place < attrs.len() {
            let key: u32 = if order[i].1 {
                (place as u32) | 0x8000_0000
            } else {
                place as u32
            };
            r.push(key);
        }
        i += 1;
    }
    r
}

/// The same test with the opposite outcome, under a restriction.
fn complement_of(rel: &RelExpr) -> (r: Option<RelExpr>)
    ensures
        maybe_rel(r) == complement(rel@),
{
    match rel {
        RelExpr::Restrict { input, pred } => match pred {
            Predicate::AttrCmp { attr, op, value } => Some(
                RelExpr::Restrict {
                    input: Box::new((**input).clone()),
                    pred: Predicate::AttrCmp {
                        attr: attr.clone(),
                        op: op.negate(),
                        value: value.clone(),
                    },
                },
            ),
            Predicate::Gate(_) => None,
        },
        _ => None,
    }
}

/// The value of an updated relvar.
fn build_updated(
    target: &RelExpr,
    restrict: Option<RelExpr>,
    pairs: &Vec<(String, Expr)>,
    removed: &Vec<String>,
) -> (r: Option<RelExpr>)
    ensures
        maybe_rel(r) == updated_rel(target@, maybe_rel(restrict), pairs@, names_of(removed@)),
{
    let input = match &restrict {
        Some(rel) => rel.clone(),
        None => target.clone(),
    };
    match input.checked_heading() {
        Some(h) => match build_scalars(pairs, &h) {
            Some(extends) => {
                let sub = build_substitute_chain(input, &extends, removed);
                match &restrict {
                    Some(rel) => match complement_of(rel) {
                        Some(c) => Some(RelExpr::Or { lhs: Box::new(c), rhs: Box::new(sub) }),
                        None => None,
                    },
                    None => Some(sub),
                }
            },
            None => None,
        },
        None => None,
    }
}

impl<const COLLECT: bool> Lowerer<COLLECT> {
    /// The statement that pushes an expression.
    pub fn offer(&mut self, rel: &RelExpr) -> (r: Option<SqlQuery>)
        ensures
            (final(self)@, maybe_query(r)) == offered(old(self)@, rel@),
    {
        reveal(offered);
        match rel.origin() {
            StorageOrigin::Materialized => None,
            _ => {
                let answer = self.ask(SqlRequest::Select(rel.clone()));
                match try_push(rel, answer, None) {
                    Some(plan) => Some(plan.query),
                    None => None,
                }
            },
        }
    }

    /// An expression evaluated by the database, when it can be.
    pub fn try_lower_pushed(&mut self, e: &Expr) -> (r: Option<ValueId>)
        ensures
            (final(self)@, r) == attempted(old(self)@, *e),
    {
        reveal(attempted);
        if !self.pushes() {
            return None;
        }
        match self.build_rel_expr(e) {
            Some(rel) => match self.offer(&rel) {
                Some(q) => {
                    let v = self.query(&q);
                    self.explain(&rel, q.text.as_str());
                    Some(v)
                },
                None => None,
            },
            None => None,
        }
    }

    fn guard_operand(&mut self, operand: &Expr)
        ensures
            final(self)@ == operand_guarded(old(self)@, *operand),
    {
        reveal(operand_guarded);
        if let Some(rel) = self.build_rel_expr(operand) {
            if let StorageOrigin::RelvarRooted = rel.origin() {
                if !contains_restrict(&rel) {
                    let name = match relvar_root_name(&rel) {
                        Some(name) => name,
                        None => "?".to_owned(),
                    };
                    self.halt(Stop::FullRelvarPull(name));
                }
            }
        }
    }

    /// Stops when a relational operator evaluated in-process has all rows of a
    /// public relvar as an operand.
    pub fn guard_no_full_relvar_pull(&mut self, e: &Expr)
        ensures
            final(self)@ == guarded(old(self)@, *e),
    {
        reveal(guarded);
        match &e.kind {
            ExprKind::Binary { op, lhs, rhs } => match op {
                BinaryOp::Where => {
                    self.guard_operand(lhs);
                },
                BinaryOp::Join
                | BinaryOp::Times
                | BinaryOp::Intersect
                | BinaryOp::Compose
                | BinaryOp::Union
                | BinaryOp::Minus => {
                    self.guard_operand(lhs);
                    self.guard_operand(rhs);
                },
                _ => {},
            },
            ExprKind::Project { input, .. } => {
                self.guard_operand(input);
            },
            ExprKind::Replace { input, .. } => {
                self.guard_operand(input);
            },
            ExprKind::Rename { input, .. } => {
                self.guard_operand(input);
            },
            ExprKind::Wrap { input, .. } => {
                self.guard_operand(input);
            },
            ExprKind::Unwrap { input, .. } => {
                self.guard_operand(input);
            },
            ExprKind::Extend { input, .. } => {
                self.guard_operand(input);
            },
            ExprKind::Tclose { input, .. } => {
                self.guard_operand(input);
            },
            _ => {},
        }
    }

    /// Lowers a literal.
    pub fn lower_literal(&mut self, l: &Literal) -> (v: ValueId)
        ensures
            (final(self)@, v) == literal_lowered(old(self)@, *l),
    {
        reveal(literal_lowered);
        match l {
            Literal::Str(text) => match decode_string(text.as_str()) {
                Some(s) => self.constant(Const::Text(s.as_str().as_bytes_vec()), ProcType::Text),
                None => self.unlowered(),
            },
            Literal::Integer(text) => match parse_integer(text.as_str()) {
                Some(n) => self.constant(Const::Integer(n), ProcType::Integer),
                None => self.unlowered(),
            },
            Literal::Char(text) => match decode_char(text.as_str()) {
                Some(c) => self.constant(Const::Character(c), ProcType::Character),
                None => self.unlowered(),
            },
            Literal::Format(_) => self.unlowered(),
            Literal::Other(_) => self.unlowered(),
        }
    }

    /// Lowers a name.
    pub fn lower_name_ref(&mut self, span: Span, name: &str) -> (v: ValueId)
        ensures
            (final(self)@, v) == name_lowered(old(self)@, span, name@),
    {
        reveal(name_lowered);
        if let Some((v, _)) = self.local(name) {
            return v;
        }
        let found = match self.public(name) {
            Some((b, _)) => Some((b.name.clone(), b.heading_id)),
            None => None,
        };
        if let Some((slot, id)) = found {
            self.use_legacy(slot.as_str());
            return self.read_slot(slot.as_str(), id);
        }
        if let Some(id) = self.private(name) {
            self.use_private(name);
            return self.read_slot(name, id);
        }
        if self.is_captured(name) {
            let message = text_about(
                "identifier `",
                name,
                "` is captured from an outer scope; `where`-predicate captures are not yet supported",
            );
            self.diagnose(Diagnostic::error(span, "T0022", message));
        }
        self.define(ProcType::Unit)
    }

    /// Applies a scalar operator to two lowered operands.
    pub fn apply_scalar(&mut self, op: ScalarOp, lhs: ValueId, rhs: ValueId) -> (v: ValueId)
        ensures
            (final(self)@, v) == scalar_applied(old(self)@, op, lhs, rhs),
    {
        reveal(scalar_applied);
        if op == ScalarOp::Concat {
            let l = self.coerce_to_text(lhs);
            let r = self.coerce_to_text(rhs);
            return self.concat(l, r);
        }
        let arithmetic = op == ScalarOp::Add || op == ScalarOp::Sub || op == ScalarOp::Mul || op
            == ScalarOp::Div;
        let (operand_type, result) = if arithmetic {
            (ProcType::Integer, ProcType::Integer)
        } else {
            (self.type_of(lhs), ProcType::Boolean)
        };
        let dst = self.define(result);
        self.emit(Inst::ScalarOp { dst, op, operand_type, lhs, rhs });
        self.release_temp(lhs);
        self.release_temp(rhs);
        dst
    }

    fn restructure_as(&mut self, src: Option<ValueId>, rel: &RelExpr) -> (r: Option<ValueId>)
        ensures
            (final(self)@, r) == restructured(old(self)@, src, rel@),
    {
        reveal(restructured);
        match src {
            Some(src) => match rel.checked_heading() {
                Some(h) => Some(self.restructure(src, &h)),
                None => None,
            },
            None => None,
        }
    }

    /// Evaluates a relational expression over private relvars in-process.
    pub fn lower_relexpr_inprocess(&mut self, rel: &RelExpr) -> (r: Option<ValueId>)
        ensures
            (final(self)@, r) == in_process(old(self)@, rel@),
        decreases rel,
    {
        reveal_with_fuel(in_process, 1);
        match rel {
            RelExpr::MaterializedRelvar { name, .. } => match self.private(name.as_str()) {
                Some(id) => {
                    self.use_private(name.as_str());
                    Some(self.read_slot(name.as_str(), id))
                },
                None => None,
            },
            RelExpr::And { lhs, rhs } => {
                let l = self.lower_relexpr_inprocess(lhs);
                match l {
                    Some(l) => match self.lower_relexpr_inprocess(rhs) {
                        Some(r) => Some(self.join(l, r)),
                        None => None,
                    },
                    None => None,
                }
            },
            RelExpr::Or { lhs, rhs } => {
                let l = self.lower_relexpr_inprocess(lhs);
                match l {
                    Some(l) => match self.lower_relexpr_inprocess(rhs) {
                        Some(r) => Some(self.unite(l, r)),
                        None => None,
                    },
                    None => None,
                }
            },
            RelExpr::Minus { lhs, rhs } => {
                let l = self.lower_relexpr_inprocess(lhs);
                match l {
                    Some(l) => match self.lower_relexpr_inprocess(rhs) {
                        Some(r) => Some(self.subtract(l, r)),
                        None => None,
                    },
                    None => None,
                }
            },
            RelExpr::Project { input, keep } => match self.lower_relexpr_inprocess(input) {
                Some(src) => Some(self.project(src, keep, false)),
                None => None,
            },
            RelExpr::TClose { input } => match self.lower_relexpr_inprocess(input) {
                Some(src) => Some(self.close(src)),
                None => None,
            },
            RelExpr::Wrap { input, .. } => {
                let src = self.lower_relexpr_inprocess(input);
                self.restructure_as(src, rel)
            },
            RelExpr::Unwrap { input, .. } => {
                let src = self.lower_relexpr_inprocess(input);
                self.restructure_as(src, rel)
            },
            _ => None,
        }
    }

    /// Applies a relational operator to two lowered operands.
    pub fn combine_values(&mut self, op: BinaryOp, lhs: ValueId, rhs: ValueId) -> (v: ValueId)
        ensures
            (final(self)@, v) == combined_values(old(self)@, op, lhs, rhs),
    {
        reveal(combined_values);
        if op == BinaryOp::Union {
            return self.unite(lhs, rhs);
        }
        if op == BinaryOp::Minus {
            return self.subtract(lhs, rhs);
        }
        let joined = self.join(lhs, rhs);
        if op == BinaryOp::Compose {
            match (self.relation_id(lhs), self.relation_id(rhs)) {
                (Some(l), Some(r)) => match compose_keep(&self.heading_at(l), &self.heading_at(r)) {
                    Some(keep) => self.project(joined, &keep, false),
                    None => self.unlowered(),
                },
                _ => self.unlowered(),
            }
        } else {
            joined
        }
    }

    /// Reads a field of a tuple value.
    pub fn read_field(&mut self, src: ValueId, field: &str) -> (v: ValueId)
        ensures
            (final(self)@, v) == field_read(old(self)@, src, field@),
    {
        reveal(field_read);
        match self.type_of(src) {
            ProcType::Tuple(h) => match h.lookup(field) {
                Some(t) => match proc_type_from_type(t) {
                    Some(ty) => {
                        let dst = self.define(ty.clone());
                        self.emit(
                            Inst::TupleField {
                                dst,
                                src,
                                field_name: field.to_owned(),
                                field_type: ty,
                            },
                        );
                        dst
                    },
                    None => self.unlowered(),
                },
                None => self.unlowered(),
            },
            _ => self.unlowered(),
        }
    }

    /// Takes the only tuple of a relation.
    pub fn extract(&mut self, src: ValueId) -> (v: ValueId)
        ensures
            (final(self)@, v) == extracted(old(self)@, src),
    {
        reveal(extracted);
        match self.relation_id(src) {
            Some(id) => {
                let h = self.heading_at(id);
                let dst = self.define(ProcType::Tuple(h));
                self.emit(Inst::Extract { dst, src, heading_id: id });
                if !self.is_bound(src) {
                    self.defer(src);
                }
                dst
            },
            None => self.unlowered(),
        }
    }

    /// Prints a relation.
    pub fn print(&mut self, rel: ValueId) -> (v: ValueId)
        ensures
            (final(self)@, v) == printed(old(self)@, rel),
    {
        reveal(printed);
        match self.relation_id(rel) {
            Some(id) => {
                self.emit(Inst::WriteRelation { rel, heading_id: id });
                self.define(ProcType::Unit)
            },
            None => self.unlowered(),
        }
    }

    fn pick_texts(&self, vs: &Vec<ValueId>) -> (r: Vec<ValueId>)
        ensures
            r@ == text_values(self@, vs@),
    {
        let ghost keep = |v: ValueId| self@.type_of(v) is Text;
        let mut r: Vec<ValueId> = Vec::new();
        let mut i: usize = 0;
        proof {
            reveal_with_fuel(Seq::filter, 1);
            assert(r@ =~= Seq::empty());
        }
        while i < vs.len()
            invariant
                i <= vs.len(),
                keep == (|v: ValueId| self@.type_of(v) is Text),
                r@ == vs@.take(i as int).filter(keep),
            decreases vs.len() - i,
        {
            proof {
                reveal_with_fuel(Seq::filter, 1);
                assert(vs@.take(i as int + 1).drop_last() =~= vs@.take(i as int));
                assert(vs@.take(i as int + 1).last() == vs@[i as int]);
            }
            if is_text(&self.type_of(vs[i])) {
                r.push(vs[i]);
            }
            i += 1;
        }
        assert(vs@.take(i as int) =~= vs@);
        r
    }

    /// Calls a function with its lowered arguments.
    pub fn call(
        &mut self,
        callee: &str,
        args: Vec<ValueId>,
        return_type: ProcType,
        borrows: bool,
    ) -> (v: ValueId)
        ensures
            (final(self)@, v) == called(old(self)@, callee@, args@, return_type@, borrows),
    {
        reveal(called);
        if is_unit(&return_type) {
            let texts = self.pick_texts(&args);
            self.emit(Inst::Call { dst: None, callee: callee.to_owned(), args, return_type });
            if borrows {
                self.release_temps(&texts);
            }
            self.define(ProcType::Unit)
        } else {
            let dst = self.define(return_type.clone());
            let texts = self.pick_texts(&args);
            let text = is_text(&return_type);
            self.emit(
                Inst::Call { dst: Some(dst), callee: callee.to_owned(), args, return_type },
            );
            if text {
                self.own(dst);
            }
            if borrows {
                self.release_temps(&texts);
            }
            dst
        }
    }

    fn lower_pieces(&mut self, chunks: &Vec<TemplateChunk>, args: Option<ValueId>) -> (r: Vec<
        ValueId,
    >)
        ensures
            (final(self)@, r@) == pieces_first(
                old(self)@,
                chunks_view(chunks@),
                chunks@.len(),
                args,
            ),
    {
        let ghost st = self@;
        let ghost cs = chunks_view(chunks@);
        let mut r: Vec<ValueId> = Vec::new();
        let mut i: usize = 0;
        while i < chunks.len()
            invariant
                i <= chunks.len(),
                cs == chunks_view(chunks@),
                (self@, r@) == pieces_first(st, cs, i as nat, args),
            decreases chunks.len() - i,
        {
            assert(cs[i as int] == chunks@[i as int]@);
            match &chunks[i] {
                TemplateChunk::Literal(bytes) => {
                    let v = self.text_const(copy_bytes(bytes));
                    r.push(v);
                },
                TemplateChunk::Placeholder(name) => match args {
                    Some(tuple) => {
                        let field = self.read_field(tuple, name.as_str());
                        let v = self.to_text(field);
                        r.push(v);
                    },
                    None => {
                        self.not_lowered();
                    },
                },
            }
            i += 1;
        }
        r
    }

    fn join_texts(&mut self, pieces: &Vec<ValueId>) -> (v: ValueId)
        ensures
            (final(self)@, v) == joined_texts(old(self)@, pieces@),
    {
        reveal(joined_texts);
        if pieces.len() == 0 {
            return self.text_const(Vec::new());
        }
        let ghost st = self@;
        let mut acc = pieces[0];
        let mut i: usize = 1;
        while i < pieces.len()
            invariant
                1 <= i <= pieces.len(),
                (self@, acc) == joined_first(st, pieces@, i as nat),
            decreases pieces.len() - i,
        {
            acc = self.concat(acc, pieces[i]);
            i += 1;
        }
        acc
    }

    fn release_tuple_cells(&mut self, tuple: ValueId)
        ensures
            final(self)@ == release_cells(old(self)@, tuple),
    {
        reveal(release_cells);
        let temps = self.temps(tuple);
        self.drop_temps(tuple);
        self.release_temps(&temps);
    }

    /// Joins a template's pieces, with the arguments' tuple.
    pub fn fill_template(&mut self, chunks: &Vec<TemplateChunk>, args: Option<ValueId>) -> (v:
        ValueId)
        ensures
            (final(self)@, v) == formatted(old(self)@, chunks_view(chunks@), args),
    {
        reveal(formatted);
        let pieces = self.lower_pieces(chunks, args);
        let text = self.join_texts(&pieces);
        if let Some(tuple) = args {
            self.release_tuple_cells(tuple);
        }
        text
    }

    /// Makes a tuple of lowered fields.
    pub fn make_tuple(&mut self, fields: &Vec<Var>, temps: Vec<ValueId>) -> (v: ValueId)
        ensures
            (final(self)@, v) == tuple_made(old(self)@, vars_view(fields@), temps@),
    {
        reveal(tuple_made);
        match field_attrs(fields) {
            Some(attrs) => {
                let heading = Heading::new(attrs);
                let sorted = sort_fields(fields);
                let dst = self.define(ProcType::Tuple(heading.clone()));
                self.emit(Inst::TupleLit { dst, fields: sorted, heading });
                if temps.len() > 0 {
                    self.set_temps(dst, temps);
                }
                dst
            },
            None => self.unlowered(),
        }
    }

    fn take_temps(&mut self, tuples: &Vec<ValueId>) -> (r: Vec<ValueId>)
        ensures
            (final(self)@, r@) == temps_first(old(self)@, tuples@, tuples@.len()),
    {
        let ghost st = self@;
        let mut r: Vec<ValueId> = Vec::new();
        let mut i: usize = 0;
        while i < tuples.len()
            invariant
                i <= tuples.len(),
                (self@, r@) == temps_first(st, tuples@, i as nat),
            decreases tuples.len() - i,
        {
            let mut temps = self.temps(tuples[i]);
            r.append(&mut temps);
            self.drop_temps(tuples[i]);
            i += 1;
        }
        r
    }

    /// Makes a relation of lowered tuples.
    pub fn make_relation(&mut self, tuples: Vec<ValueId>) -> (v: ValueId)
        requires
            tuples.len() > 0,
        ensures
            (final(self)@, v) == relation_made(old(self)@, tuples@),
    {
        reveal(relation_made);
        match self.type_of(tuples[0]) {
            ProcType::Tuple(h) => {
                let heading_id = self.intern(&h);
                let dst = self.define(ProcType::Relation(heading_id));
                let temps = self.take_temps(&tuples);
                self.emit(Inst::RelationLit { dst, tuples, heading_id });
                self.release_temps(&temps);
                dst
            },
            _ => self.unlowered(),
        }
    }

    /// Makes a sequence of lowered elements.
    pub fn make_sequence(&mut self, elements: Vec<ValueId>) -> (v: ValueId)
        requires
            elements.len() > 0,
        ensures
            (final(self)@, v) == sequence_made(old(self)@, elements@),
    {
        reveal(sequence_made);
        let ty = self.type_of(elements[0]);
        match type_from_proc(&ty) {
            Some(t) => {
                let mut attrs: Vec<(String, Type)> = Vec::new();
                let ghost seen = ("value"@, t@);
                attrs.push(("value".to_owned(), t));
                assert(attrs_view(attrs@) =~= seq![seen]);
                let heading_id = self.intern(&Heading::new(attrs));
                let dst = self.define(ProcType::Sequence(Box::new(ty)));
                let copied = copy_values(&elements);
                self.emit(Inst::SequenceLit { dst, elements, heading_id });
                self.release_temps(&copied);
                dst
            },
            None => self.unlowered(),
        }
    }

    /// Loads and binds the cells of a helper's record.
    pub fn load_cells(&mut self, record: ValueId, h: &Heading, layout: &RecordLayout) -> (r: Vec<
        Var,
    >)
        requires
            lays_out(h@),
            layout@ == layout_of(h@),
        ensures
            (final(self)@, vars_view(r@)) == loads_first(old(self)@, record, h@, h@.len()),
    {
        let ghost st = self@;
        let attrs = h.attrs();
        let mut cells: Vec<Var> = Vec::new();
        let mut i: usize = 0;
        proof {
            assert(vars_view(cells@) =~= Seq::empty());
            assert(layout@.attrs.len() == h@.len());
        }
        while i < attrs.len()
            invariant
                i <= attrs.len(),
                attrs_view(attrs@) == h@,
                lays_out(h@),
                layout@ == layout_of(h@),
                layout.attrs.len() == attrs.len(),
                (self@, vars_view(cells@)) == loads_first(st, record, h@, i as nat),
            decreases attrs.len() - i,
        {
            proof {
                assert(h@[i as int] == attrs_view(attrs@)[i as int]);
                assert(layout@.attrs[i as int].offset == layout.attrs@[i as int].offset);
                lemma_offset(h@, i as int);
            }
            match proc_type_from_cell(&attrs[i].1) {
                Some(ty) => {
                    let dst = self.define(ty.clone());
                    self.emit(
                        Inst::AttrLoad {
                            dst,
                            src: record,
                            offset: layout.attrs[i].offset,
                            attr_type: ty.clone(),
                        },
                    );
                    self.bind(attrs[i].0.as_str(), dst, ty.clone());
                    put_var(&mut cells, attrs[i].0.as_str(), dst, ty);
                },
                None => {
                    self.not_lowered();
                },
            }
            i += 1;
        }
        cells
    }

    /// Stores the cells of an extension's record.
    pub fn store_cells(
        &mut self,
        record: ValueId,
        h: &Heading,
        layout: &RecordLayout,
        cells: &Vec<Var>,
    )
        requires
            lays_out(h@),
            layout@ == layout_of(h@),
        ensures
            final(self)@ == stores_first(
                old(self)@,
                record,
                h@,
                vars_view(cells@),
                h@.len(),
            ),
    {
        let ghost st = self@;
        let attrs = h.attrs();
        let mut i: usize = 0;
        assert(layout@.attrs.len() == h@.len());
        while i < attrs.len()
            invariant
                i <= attrs.len(),
                attrs_view(attrs@) == h@,
                lays_out(h@),
                layout@ == layout_of(h@),
                layout.attrs.len() == attrs.len(),
                self@ == stores_first(st, record, h@, vars_view(cells@), i as nat),
            decreases attrs.len() - i,
        {
            proof {
                assert(h@[i as int] == attrs_view(attrs@)[i as int]);
                assert(layout@.attrs[i as int].offset == layout.attrs@[i as int].offset);
                lemma_offset(h@, i as int);
            }
            let at: usize = find_var(cells, attrs[i].0.as_str());
            if at < cells.len() {
                let value = cells[at].value;
                self.emit(
                    Inst::AttrStore {
                        record,
                        offset: layout.attrs[i].offset,
                        value,
                        attr_type: cells[at].ty.clone(),
                    },
                );
                self.release_temp(value);
            } else {
                self.not_lowered();
            }
            i += 1;
        }
    }

    /// The variables that a join of control flow carries.
    pub fn carry(&mut self, names: &Vec<String>, span: Span) -> (r: Vec<Var>)
        ensures
            (final(self)@, vars_view(r@)) == carried_first(
                old(self)@,
                names_of(names@),
                names@.len(),
                span,
            ),
    {
        let ghost st = self@;
        let ghost ns = names_of(names@);
        let mut r: Vec<Var> = Vec::new();
        let mut i: usize = 0;
        assert(vars_view(r@) =~= Seq::empty());
        while i < names.len()
            invariant
                i <= names.len(),
                ns == names_of(names@),
                (self@, vars_view(r@)) == carried_first(st, ns, i as nat, span),
            decreases names.len() - i,
        {
            let ghost was = vars_view(r@);
            let name = names[i].as_str();
            if let Some((value, ty)) = self.local(name) {
                if is_heap_managed(&ty) || is_text(&ty) {
                    let message = text_about(
                        "reassigning the heap-typed variable `",
                        name,
                        "` across a loop or `if` is not yet lowered",
                    );
                    self.diagnose(Diagnostic::error(span, "T0076", message));
                } else {
                    let ghost seen = (name@, (value, ty@));
                    r.push(Var { name: name.to_owned(), value, ty });
                    assert(vars_view(r@) =~= was.push(seen));
                }
            }
            i += 1;
        }
        r
    }

    /// The variables that both branches give a value.
    pub fn introduce(&mut self, names: &Vec<String>, span: Span) -> (r: Vec<Var>)
        ensures
            (final(self)@, vars_view(r@)) == introduced_first(
                old(self)@,
                names_of(names@),
                names@.len(),
                span,
            ),
    {
        let ghost st = self@;
        let ghost ns = names_of(names@);
        let mut r: Vec<Var> = Vec::new();
        let mut i: usize = 0;
        assert(vars_view(r@) =~= Seq::empty());
        while i < names.len()
            invariant
                i <= names.len(),
                ns == names_of(names@),
                (self@, vars_view(r@)) == introduced_first(st, ns, i as nat, span),
            decreases names.len() - i,
        {
            let ghost was = vars_view(r@);
            let name = names[i].as_str();
            if let Some((value, ty)) = self.local(name) {
                if is_heap_managed(&ty) || is_text(&ty) {
                    let message = text_about(
                        "initializing the heap-typed variable `",
                        name,
                        "` on both branches of an `if` is not yet lowered",
                    );
                    self.diagnose(Diagnostic::error(span, "T0076", message));
                } else {
                    let ghost seen = (name@, (value, ty@));
                    r.push(Var { name: name.to_owned(), value, ty });
                    assert(vars_view(r@) =~= was.push(seen));
                }
            }
            i += 1;
        }
        r
    }

    /// The names that both lists hold and that have no value yet, each once.
    pub fn introduced_var_names(&self, ours: &Vec<String>, theirs: &Vec<String>) -> (r: Vec<String>)
        ensures
            names_of(r@) == introduced_names(self@, names_of(ours@), names_of(theirs@)),
    {
        let unique = unique_names(ours);
        let ghost ns = names_of(unique@);
        let ghost keep = |n: Name| names_of(theirs@).contains(n) && self@.is_pending(n);
        let mut r: Vec<String> = Vec::new();
        let mut i: usize = 0;
        proof {
            reveal_with_fuel(Seq::filter, 1);
            assert(names_of(r@) =~= Seq::empty());
        }
        while i < unique.len()
            invariant
                i <= unique.len(),
                ns == names_of(unique@),
                keep == (|n: Name| names_of(theirs@).contains(n) && self@.is_pending(n)),
                names_of(r@) == ns.take(i as int).filter(keep),
            decreases unique.len() - i,
        {
            proof {
                reveal_with_fuel(Seq::filter, 1);
                let t = ns.take(i as int + 1);
                assert(t.drop_last() =~= ns.take(i as int));
                assert(t.last() == unique@[i as int]@);
            }
            let name = unique[i].as_str();
            if has_name(theirs, name) && self.is_pending(name) {
                let ghost was = names_of(r@);
                r.push(unique[i].clone());
                assert(names_of(r@) =~= was.push(unique@[i as int]@));
            }
            i += 1;
        }
        assert(ns.take(i as int) =~= ns);
        r
    }

    /// The current values of variables, behind others.
    pub fn with_current(&self, first: Vec<ValueId>, vars: &Vec<Var>) -> (r: Vec<ValueId>)
        ensures
            r@ == first@ + current_values(self@, vars_view(vars@)),
    {
        let ghost head = first@;
        let ghost vs = current_values(self@, vars_view(vars@));
        let mut r = first;
        let mut i: usize = 0;
        assert(r@ =~= head + vs.take(0));
        while i < vars.len()
            invariant
                i <= vars.len(),
                vs == current_values(self@, vars_view(vars@)),
                r@ == head + vs.take(i as int),
            decreases vars.len() - i,
        {
            let v = match self.local(vars[i].name.as_str()) {
                Some((v, _)) => v,
                None => ValueId(0),
            };
            assert(vs[i as int] == v);
            r.push(v);
            assert(r@ =~= head + vs.take(i as int + 1));
            i += 1;
        }
        assert(vs.take(i as int) =~= vs);
        r
    }

    /// A new value for each variable.
    pub fn fresh_vars(&mut self, vars: &Vec<Var>) -> (r: Vec<Var>)
        ensures
            (final(self)@, vars_view(r@)) == fresh_first(
                old(self)@,
                vars_view(vars@),
                vars@.len(),
            ),
    {
        let ghost st = self@;
        let ghost vs = vars_view(vars@);
        let mut r: Vec<Var> = Vec::new();
        let mut i: usize = 0;
        assert(vars_view(r@) =~= Seq::empty());
        while i < vars.len()
            invariant
                i <= vars.len(),
                vs == vars_view(vars@),
                (self@, vars_view(r@)) == fresh_first(st, vs, i as nat),
            decreases vars.len() - i,
        {
            let ghost was = vars_view(r@);
            assert(vs[i as int] == vars@[i as int]@);
            let p = self.define(vars[i].ty.clone());
            let ghost seen = (vars@[i as int].name@, (p, vars@[i as int].ty@));
            r.push(Var { name: vars[i].name.clone(), value: p, ty: vars[i].ty.clone() });
            assert(vars_view(r@) =~= was.push(seen));
            i += 1;
        }
        r
    }

    /// Points the variables at the values they came with.
    pub fn rebind_all(&mut self, vars: &Vec<Var>)
        ensures
            final(self)@ == rebound(old(self)@, vars_view(vars@)),
    {
        reveal(rebound);
        let ghost st = self@;
        let ghost vs = vars_view(vars@);
        let mut i: usize = 0;
        while i < vars.len()
            invariant
                i <= vars.len(),
                vs == vars_view(vars@),
                self@ == rebound_first(st, vs, i as nat),
            decreases vars.len() - i,
        {
            assert(vs[i as int] == vars@[i as int]@);
            self.rebind(vars[i].name.as_str(), vars[i].value, vars[i].ty.clone());
            i += 1;
        }
    }

    /// Takes a new value over for a name: retained when it was another name's.
    pub fn take_over(&mut self, v: ValueId, ty: &ProcType, from_name: bool)
        ensures
            final(self)@ == taken_over(old(self)@, v, ty@, from_name),
    {
        reveal(taken_over);
        if from_name && (is_heap_managed(ty) || is_text(ty)) {
            self.emit(Inst::Retain { src: v });
            if is_text(ty) {
                self.own(v);
            }
        }
    }

    /// Moves a value into a private relvar's slot.
    pub fn store(&mut self, name: &str, value: ValueId)
        ensures
            final(self)@ == stored(old(self)@, name@, value),
    {
        reveal(stored);
        self.use_private(name);
        self.emit(Inst::RelvarSlotStore { name: name.to_owned(), value });
    }

    /// Whether a public relvar can be written to; a diagnostic when not.
    pub fn require_public_write(&mut self, name: &str, span: Span) -> (r: bool)
        ensures
            (final(self)@, r) == write_allowed(old(self)@, name@, span),
    {
        reveal(write_allowed);
        let writable = match self.public(name) {
            Some((_, policy)) => policy == WritePolicy::ReadWrite,
            None => false,
        };
        if !writable {
            let message = text_about(
                "cannot assign to public relvar `",
                name,
                "`: it maps to a non-writable view",
            );
            self.diagnose(Diagnostic::error(span, "T0050", message));
            return false;
        }
        if !self.pushes() {
            let message = text_about(
                "cannot assign to public relvar `",
                name,
                "`: backend does not support SQL writes",
            );
            self.diagnose(Diagnostic::error(span, "T0049", message));
            return false;
        }
        true
    }

    /// Runs the one statement that gives the target the value, when there is
    /// one.
    pub fn assign_by_statement(&mut self, target: &RelExpr, value: RelExpr) -> (r: bool)
        ensures
            (final(self)@, r) == assigned_by_statement(old(self)@, target@, value@),
    {
        reveal(assigned_by_statement);
        match self.ask(SqlRequest::Assign { target: target.clone(), value }) {
            Some(q) => {
                self.dml(&q);
                true
            },
            None => false,
        }
    }

    fn decline_public_update(&mut self, name: &str, span: Span)
        ensures
            final(self)@ == update_declined(old(self)@, name@, span),
    {
        reveal(update_declined);
        let message = text_about(
            "cannot update public relvar `",
            name,
            "`: not a recognized surgical shape",
        );
        self.diagnose(Diagnostic::error(span, "T0049", message));
    }

    /// Updates a public relvar.
    pub fn lower_public_update(
        &mut self,
        name: &str,
        root: &Expr,
        operand: &Expr,
        has_where: bool,
        pairs: &Vec<(String, Expr)>,
        removed: &Vec<String>,
    )
        ensures
            final(self)@ == public_updated(
                old(self)@,
                name@,
                *root,
                *operand,
                has_where,
                pairs@,
                names_of(removed@),
            ),
    {
        reveal(public_updated);
        if !self.require_public_write(name, root.span) {
            return ;
        }
        let target = match self.build_rel_expr(root) {
            Some(target) => target,
            None => {
                return ;
            },
        };
        let value = if has_where {
            match self.build_rel_expr(operand) {
                Some(restrict) => build_updated(&target, Some(restrict), pairs, removed),
                None => None,
            }
        } else {
            build_updated(&target, None, pairs, removed)
        };
        match value {
            Some(value) => {
                if !self.assign_by_statement(&target, value) {
                    self.decline_public_update(name, operand.span);
                }
            },
            None => {
                self.decline_public_update(name, operand.span);
            },
        }
    }

    /// Puts a lowered relation in order, as the first value of a variable.
    pub fn load(&mut self, target: &str, rel: ValueId, order: &Vec<(String, bool)>)
        ensures
            final(self)@ == loaded(old(self)@, target@, rel, order@),
    {
        reveal(loaded);
        proof {
            reveal_with_fuel(ProcType::view, 2);
        }
        match self.relation_id(rel) {
            Some(id) => {
                let h = self.heading_at(id);
                let keys = keys_of_order(&h, order);
                let ty = ProcType::Sequence(Box::new(ProcType::Tuple(h)));
                let dst = self.define(ty.clone());
                self.emit(Inst::Load { dst, src: rel, heading_id: id, keys });
                self.release_unbound(rel);
                self.bind_pending(target, dst, ty);
            },
            None => {
                self.not_lowered();
            },
        }
    }

    /// Ships the lowered rows of a relation by a plan.
    pub fn ship_rows(&mut self, plan_id: u32, src: ValueId) -> (r: bool)
        ensures
            (final(self)@, r) == rows_shipped(old(self)@, plan_id, src),
    {
        reveal(rows_shipped);
        match self.relation_id(src) {
            Some(id) => {
                self.emit(Inst::InsertFrom { plan_id, src, heading_id: id });
                self.release_unbound(src);
                true
            },
            None => false,
        }
    }

    /// Binds the loop's variable.
    pub fn bind_loop_var(&mut self, var: &RoundVar, counter: ValueId)
        ensures
            final(self)@ == loop_var_bound(old(self)@, var@, counter),
    {
        reveal(loop_var_bound);
        match var {
            RoundVar::Counter(name) => {
                self.bind(name.as_str(), counter, ProcType::Integer);
            },
            RoundVar::Element { seq, ty, name } => {
                let v = self.element(*seq, counter, ty);
                self.bind(name.as_str(), v, ty.clone());
            },
        }
    }

    /// Opens a counted loop.
    pub fn open_loop(
        &mut self,
        lo: ValueId,
        hi: ValueId,
        carried: &Vec<Var>,
        header: BlockId,
        body: BlockId,
        exit: BlockId,
    ) -> (r: (ValueId, Vec<Var>))
        ensures
            (final(self)@, r.0, vars_view(r.1@)) == loop_opened(
                old(self)@,
                lo,
                hi,
                vars_view(carried@),
                header,
                body,
                exit,
            ),
    {
        reveal(loop_opened);
        let args = with_prior(one_value(lo), carried);
        self.finish_block(Terminator::Br { target: header, args });
        let counter = self.define(ProcType::Integer);
        let params = self.fresh_vars(carried);
        let mut first: Vec<(ValueId, ProcType)> = Vec::new();
        first.push((counter, ProcType::Integer));
        assert(typed_values(first@) =~= seq![(counter, ProcTypeView::Integer)]);
        let block_params = with_params(first, &params);
        self.start_block(header, block_params);
        self.rebind_all(&params);
        let test = self.define(ProcType::Boolean);
        self.emit(
            Inst::ScalarOp {
                dst: test,
                op: ScalarOp::LtEq,
                operand_type: ProcType::Integer,
                lhs: counter,
                rhs: hi,
            },
        );
        self.finish_block(Terminator::CondBr { cond: test, then_block: body, else_block: exit });
        self.start_plain_block(body);
        (counter, params)
    }

    /// Closes a counted loop.
    pub fn close_loop(
        &mut self,
        counter: ValueId,
        carried: &Vec<Var>,
        params: &Vec<Var>,
        header: BlockId,
        exit: BlockId,
    )
        ensures
            final(self)@ == loop_closed(
                old(self)@,
                counter,
                vars_view(carried@),
                vars_view(params@),
                header,
                exit,
            ),
    {
        reveal(loop_closed);
        let one = self.constant(Const::Integer(1), ProcType::Integer);
        let next = self.define(ProcType::Integer);
        self.emit(
            Inst::ScalarOp {
                dst: next,
                op: ScalarOp::Add,
                operand_type: ProcType::Integer,
                lhs: counter,
                rhs: one,
            },
        );
        let args = self.with_current(one_value(next), carried);
        self.finish_block(Terminator::Br { target: header, args });
        self.start_plain_block(exit);
        self.rebind_all(params);
    }

    /// The bounds of a loop over a sequence.
    pub fn bounds_of(&mut self, seq: ValueId) -> (r: (ValueId, ValueId))
        ensures
            (final(self)@, r.0, r.1) == sequence_bounds(old(self)@, seq),
    {
        reveal(sequence_bounds);
        self.declare(
            "cardinality",
            "coddl_rc_length",
            one_param("self", ProcType::Relation(HeadingId(0))),
            ProcType::Integer,
        );
        let length = self.define(ProcType::Integer);
        self.emit(
            Inst::Call {
                dst: Some(length),
                callee: "coddl_rc_length".to_owned(),
                args: one_value(seq),
                return_type: ProcType::Integer,
            },
        );
        let one = self.constant(Const::Integer(1), ProcType::Integer);
        let hi = self.define(ProcType::Integer);
        self.emit(
            Inst::ScalarOp {
                dst: hi,
                op: ScalarOp::Sub,
                operand_type: ProcType::Integer,
                lhs: length,
                rhs: one,
            },
        );
        let lo = self.constant(Const::Integer(0), ProcType::Integer);
        (lo, hi)
    }

    /// Holds a sequence for a loop.
    pub fn hold_sequence(&mut self, seq: ValueId, from_name: bool)
        ensures
            final(self)@ == sequence_held(old(self)@, seq, from_name),
    {
        reveal(sequence_held);
        let ty = self.type_of(seq);
        if from_name && is_heap_managed(&ty) {
            self.emit(Inst::Retain { src: seq });
        }
        self.bind("__seq", seq, ty);
    }
}

} // verus!
