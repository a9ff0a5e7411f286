//! The walk over the syntax tree.

use crate::ast::{BinaryOp, Block, Callee, Expr, ExprKind, ForRange, Literal, Stmt, TemplateChunk};
use crate::diag::{Diagnostic, Span};
use crate::ir::{typed_values, BlockId, Const, Inst, ProcType, Terminator, ValueId};
use crate::lower::actions::{
    consumed_attrs, elements_of, is_name, lookup_builtin, names_of_params, put_values,
    scalar_operator, takes_arguments, text_about, unique_names, vars_view, vars_with_values, widen,
    with_params, with_prior, RoundVar, Var,
};
use crate::lower::assigned::{assigned_in_block, collect_in_block};
use crate::lower::emit::{
    heading_after_unwrap, heading_after_wrap, is_text, is_unit, one_param, one_value, two_params,
};
use crate::lower::kinds::checked_layout;
use crate::lower::lowerer::{maybe_chunks, Lowerer};
use crate::lower::lowering::{
    annotated_heading, arg_lowered, args_lowered, arm_lowered, assign_lowered, binding_lowered,
    block_lowered, branch_names, branches_lowered, call_lowered, combination_lowered,
    counted_loop, delete_lowered, do_while_lowered, elements_lowered, extended, fields_lowered,
    for_lowered, format_lowered, if_lowered, insert_lowered, let_lowered, lowered, lowered_here,
    merged, overwritten, public_assign_lowered, refilled, relation_lowered, replaced,
    replaced_by_query, result_args, sequence_lowered, shipped, stmt_lowered, stmts_lowered,
    stored_texts, template_of, transaction_lowered, truncate_lowered, tuple_lowered,
    tuples_lowered, union_source, update_lowered, update_root, values_lowered, where_lowered,
    while_lowered,
};
use crate::lower::relational::{
    attr_ref, attr_ref_name, substitute_keep, substitute_names, substitute_renames, wrap_spec,
};
use crate::lower::state::{copy_chunks, find_key, lemma_name_index, names_in, SqlRequest};
use crate::lower::steps::{current_values, introduced_names, prior_values};
use crate::rel_analysis::add_each;
use crate::rel_expr::RelExpr;
use crate::text::{name_pairs_of, names_of, same_text, Name};
use crate::types::{Heading, Type};
use vstd::prelude::*;

verus! {

/// The names of a list of named expressions.
fn pair_names(pairs: &Vec<(String, Expr)>) -> (r: Vec<String>)
    ensures
        names_of(r@) == names_in(pairs@),
        r.len() == pairs.len(),
{
    let mut r: Vec<String> = Vec::new();
    let mut i: usize = 0;
    while i < pairs.len()
        invariant
            i <= pairs.len(),
            r.len() == i,
            forall|j: int| 0 <= j < i ==> (#[trigger] r@[j])@ == pairs@[j].0@,
        decreases pairs.len() - i,
    {
        r.push(pairs[i].0.clone());
        i += 1;
    }
    assert(names_of(r@) =~= names_in(pairs@));
    r
}

/// Whether an argument of that name is given.
fn has_arg(args: &Vec<(String, Expr)>, name: &str) -> (r: bool)
    ensures
        r == names_in(args@).contains(name@),
{
    let i: usize = find_key(args, name);
    proof {
        lemma_name_index(names_in(args@), name@);
    }
    i < args.len()
}

/// The names assigned to in a block, each once.
fn names_assigned(b: &Block) -> (r: Vec<String>)
    ensures
        names_of(r@) == add_each(Seq::empty(), assigned_in_block(*b)),
{
    let mut all: Vec<String> = Vec::new();
    assert(names_of(all@) =~= Seq::empty());
    collect_in_block(b, &mut all);
    assert(names_of(all@) =~= assigned_in_block(*b));
    unique_names(&all)
}

/// The names assigned to in either branch, each once.
fn names_in_branches(then_body: &Block, else_body: &Option<Block>) -> (r: Vec<String>)
    ensures
        names_of(r@) == add_each(Seq::empty(), branch_names(*then_body, *else_body)),
{
    let mut all: Vec<String> = Vec::new();
    assert(names_of(all@) =~= Seq::empty());
    collect_in_block(then_body, &mut all);
    if let Some(b) = else_body {
        collect_in_block(b, &mut all);
    }
    assert(names_of(all@) =~= branch_names(*then_body, *else_body));
    unique_names(&all)
}

/// The heading that an annotation gives a relation.
fn heading_of_annotation(annotation: &Option<Type>) -> (r: Heading)
    ensures
        r@ == annotated_heading(*annotation),
{
    match annotation {
        Some(Type::Relation(h)) => h.clone(),
        _ => Heading::empty(),
    }
}

/// The other operand of a union with the relvar.
fn union_insert_source<'a>(name: &str, value: &'a Expr) -> (r: Option<&'a Expr>)
    ensures
        union_source(name@, *value) == match r {
            Some(e) => Some(*e),
            None => None::<Expr>,
        },
        r matches Some(e) ==> decreases_to!(value => e),
{
    match &value.kind {
        ExprKind::Binary { op, lhs, rhs } => {
            if *op != BinaryOp::Union {
                return None;
            }
            if names_itself(lhs, name) {
                Some(&**rhs)
            } else if names_itself(rhs, name) {
                Some(&**lhs)
            } else {
                None
            }
        },
        _ => None,
    }
}

/// Whether the expression is that bare name.
fn names_itself(e: &Expr, name: &str) -> (r: bool)
    ensures
        r == (attr_ref(*e) == Some(name@)),
{
    match &e.kind {
        ExprKind::NameRef(n) => same_text(n.as_str(), name),
        _ => false,
    }
}

/// The result that a branch hands on; none for `Unit`.
fn branch_args(ty: &ProcType, v: ValueId) -> (r: Vec<ValueId>)
    ensures
        r@ == result_args(ty@, v),
{
    if is_unit(ty) {
        Vec::new()
    } else {
        one_value(v)
    }
}

impl<const COLLECT: bool> Lowerer<COLLECT> {
    /// Lowers an expression: by the database when it can be, else in-process.
    pub fn lower_expr(&mut self, e: &Expr) -> (v: ValueId)
        ensures
            (final(self)@, v) == lowered(old(self)@, *e),
        decreases e, 20nat, 0nat,
    {
        if let Some(v) = self.try_lower_pushed(e) {
            return v;
        }
        self.guard_no_full_relvar_pull(e);
        self.lower_here(e)
    }

    fn lower_here(&mut self, e: &Expr) -> (v: ValueId)
        ensures
            (final(self)@, v) == lowered_here(old(self)@, *e),
        decreases e, 10nat, 0nat,
    {
        match &e.kind {
            ExprKind::Literal(l) => self.lower_literal(l),
            ExprKind::Call { callee, args } => match callee {
                Callee::Name(name) => self.lower_call(name.as_str(), args, None),
                Callee::Method { receiver, method } => {
                    let v = self.lower_expr(receiver);
                    self.lower_call(method.as_str(), args, Some(v))
                },
            },
            ExprKind::Transaction { body } => self.lower_transaction_expr(body),
            ExprKind::TupleLit { fields } => self.lower_tuple_lit(fields),
            ExprKind::RelationLit { tuples } => self.lower_relation_lit(tuples),
            ExprKind::SequenceLit { elements } => self.lower_sequence_lit(e.span, elements),
            ExprKind::FieldAccess { base, field } => {
                let src = self.lower_expr(base);
                self.read_field(src, field.as_str())
            },
            ExprKind::BoolLit(b) => self.constant(Const::Boolean(*b), ProcType::Boolean),
            ExprKind::Binary { op, lhs, rhs } => {
                if *op == BinaryOp::Where {
                    return self.lower_where_expr(e);
                }
                match scalar_operator(*op) {
                    Some(operator) => {
                        let l = self.lower_expr(lhs);
                        let r = self.lower_expr(rhs);
                        self.apply_scalar(operator, l, r)
                    },
                    None => self.lower_join_inprocess(e),
                }
            },
            ExprKind::Extract { operand } => {
                let src = self.lower_expr(operand);
                self.extract(src)
            },
            ExprKind::Project { input, attrs, all_but } => {
                let src = self.lower_expr(input);
                let dst = self.project(src, attrs, *all_but);
                self.release_unbound(src);
                dst
            },
            ExprKind::Replace { input, pairs } => {
                let src = self.lower_expr(input);
                self.lower_replace(src, pairs)
            },
            ExprKind::Rename { input, renames } => {
                let src = self.lower_expr(input);
                let dst = self.rename(src, renames);
                self.release_unbound(src);
                dst
            },
            ExprKind::Wrap { input, wraps } => {
                let src = self.lower_expr(input);
                match self.relation_id(src) {
                    Some(id) => {
                        let h = self.heading_at(id);
                        let spec_of_wraps = wrap_spec(&h, wraps);
                        let result = heading_after_wrap(&h, spec_of_wraps);
                        let dst = self.restructure(src, &result);
                        self.release_unbound(src);
                        dst
                    },
                    None => self.unlowered(),
                }
            },
            ExprKind::Unwrap { input, attrs } => {
                let src = self.lower_expr(input);
                match self.relation_id(src) {
                    Some(id) => {
                        let result = heading_after_unwrap(&self.heading_at(id), attrs);
                        let dst = self.restructure(src, &result);
                        self.release_unbound(src);
                        dst
                    },
                    None => self.unlowered(),
                }
            },
            ExprKind::Extend { input, pairs } => {
                let src = self.lower_expr(input);
                let names = pair_names(pairs);
                let dst = self.emit_extend(src, &names, pairs);
                self.release_unbound(src);
                dst
            },
            ExprKind::Tclose { input, attrs } => {
                let mut src = self.lower_expr(input);
                if attrs.len() > 0 {
                    let narrowed = self.project(src, attrs, false);
                    self.release_unbound(src);
                    src = narrowed;
                }
                let dst = self.close(src);
                self.release_unbound(src);
                dst
            },
            ExprKind::Index { sequence, index } => {
                let seq = self.lower_expr(sequence);
                match self.type_of(seq) {
                    ProcType::Sequence(elem) => {
                        let i = self.lower_expr(index);
                        self.element(seq, i, &elem)
                    },
                    _ => self.unlowered(),
                }
            },
            ExprKind::If { .. } => self.lower_if_expr(e),
            ExprKind::NameRef(name) => self.lower_name_ref(e.span, name.as_str()),
        }
    }

    fn lower_call(
        &mut self,
        name: &str,
        args: &Vec<(String, Expr)>,
        receiver: Option<ValueId>,
    ) -> (v: ValueId)
        ensures
            (final(self)@, v) == call_lowered(old(self)@, name@, args@, receiver),
        decreases args@, 5nat, 0nat,
    {
        if same_text(name, "write_relation") {
            let rel = self.lower_arg("rel", args, None);
            return self.print(rel);
        }
        if same_text(name, "format") {
            return self.lower_format_call(args);
        }
        if same_text(name, "to_text") {
            let v = self.lower_arg("self", args, receiver);
            return self.to_text(v);
        }
        if same_text(name, "write_line") && has_arg(args, "template") {
            let text = self.lower_format_call(args);
            self.declare(
                "write_line",
                "coddl_write_line",
                one_param("message", ProcType::Text),
                ProcType::Unit,
            );
            self.emit(
                Inst::Call {
                    dst: None,
                    callee: "coddl_write_line".to_owned(),
                    args: one_value(text),
                    return_type: ProcType::Unit,
                },
            );
            self.release_temp(text);
            return self.define(ProcType::Unit);
        }
        if let Some(sig) = self.oper(name) {
            let names = names_of_params(&sig.params);
            let vs = self.lower_args(&names, args, receiver);
            return self.call(name, vs, sig.return_type, false);
        }
        match lookup_builtin(name) {
            Some((linkage, params, return_type)) => {
                let names = names_of_params(&params);
                let vs = self.lower_args(&names, args, receiver);
                self.declare(name, linkage, params, return_type.clone());
                self.call(linkage, vs, return_type, true)
            },
            None => self.unlowered(),
        }
    }

    fn lower_arg(
        &mut self,
        name: &str,
        args: &Vec<(String, Expr)>,
        receiver: Option<ValueId>,
    ) -> (v: ValueId)
        ensures
            (final(self)@, v) == arg_lowered(old(self)@, name@, args@, receiver),
        decreases args@, 0nat, 0nat,
    {
        if let Some(v) = receiver {
            if same_text(name, "self") {
                return v;
            }
        }
        let i: usize = find_key(args, name);
        if i < args.len() {
            proof {
                assert(decreases_to!(args@ => args@[i as int]));
                assert(decreases_to!(args@[i as int] => args@[i as int].1));
            }
            self.lower_expr(&args[i].1)
        } else {
            self.unlowered()
        }
    }

    fn lower_args(
        &mut self,
        names: &Vec<String>,
        args: &Vec<(String, Expr)>,
        receiver: Option<ValueId>,
    ) -> (r: Vec<ValueId>)
        ensures
            (final(self)@, r@) == args_lowered(
                old(self)@,
                names_of(names@),
                names@.len(),
                args@,
                receiver,
            ),
        decreases args@, 1nat, 0nat,
    {
        let ghost st = self@;
        let ghost ns = names_of(names@);
        let mut r: Vec<ValueId> = Vec::new();
        let mut i: usize = 0;
        while i < names.len()
            invariant
                i <= names.len(),
                ns == names_of(names@),
                (self@, r@) == args_lowered(st, ns, i as nat, args@, receiver),
            decreases names.len() - i,
        {
            let v = self.lower_arg(names[i].as_str(), args, receiver);
            r.push(v);
            i += 1;
        }
        r
    }

    fn find_template(&self, args: &Vec<(String, Expr)>) -> (r: Option<Vec<TemplateChunk>>)
        ensures
            maybe_chunks(r) == template_of(self@, args@),
    {
        let i: usize = find_key(args, "template");
        if i < args.len() {
            match &args[i].1.kind {
                ExprKind::Literal(Literal::Format(chunks)) => Some(copy_chunks(chunks)),
                ExprKind::NameRef(name) => self.template(name.as_str()),
                _ => None,
            }
        } else {
            None
        }
    }

    fn lower_format_call(&mut self, args: &Vec<(String, Expr)>) -> (v: ValueId)
        ensures
            (final(self)@, v) == format_lowered(old(self)@, args@),
        decreases args@, 2nat, 0nat,
    {
        match self.find_template(args) {
            Some(chunks) => {
                if takes_arguments(&chunks) && has_arg(args, "args") {
                    let tuple = self.lower_arg("args", args, None);
                    self.fill_template(&chunks, Some(tuple))
                } else {
                    self.fill_template(&chunks, None)
                }
            },
            None => self.unlowered(),
        }
    }

    fn lower_transaction_expr(&mut self, body: &Block) -> (v: ValueId)
        ensures
            (final(self)@, v) == transaction_lowered(old(self)@, *body),
        decreases body, 1nat, 0nat,
    {
        self.push_scope();
        self.bracket("coddl_begin_tx");
        let v = self.lower_block(body);
        self.bracket("coddl_commit_tx");
        self.retain_escaping(v);
        self.release_scope();
        self.pop_scope();
        v
    }

    fn texts_stored(&self, e: &Expr, v: ValueId, ty: &ProcType) -> (r: Vec<ValueId>)
        ensures
            r@ == stored_texts(self@, *e, v, ty@),
    {
        match ty {
            ProcType::Text => {
                if is_name(e) {
                    Vec::new()
                } else {
                    one_value(v)
                }
            },
            ProcType::Tuple(_) => match &e.kind {
                ExprKind::TupleLit { .. } => self.temps(v),
                _ => Vec::new(),
            },
            _ => Vec::new(),
        }
    }

    fn lower_tuple_lit(&mut self, fields: &Vec<(String, Expr)>) -> (v: ValueId)
        ensures
            (final(self)@, v) == tuple_lowered(old(self)@, fields@),
        decreases fields@, 1nat, 0nat,
    {
        let ghost st = self@;
        let mut vars: Vec<Var> = Vec::new();
        let mut temps: Vec<ValueId> = Vec::new();
        let mut i: usize = 0;
        assert(vars_view(vars@) =~= Seq::empty());
        while i < fields.len()
            invariant
                i <= fields.len(),
                (self@, vars_view(vars@), temps@) == fields_lowered(st, fields@, i as nat),
            decreases fields.len() - i,
        {
            proof {
                assert(decreases_to!(fields@ => fields@[i as int]));
                assert(decreases_to!(fields@[i as int] => fields@[i as int].1));
            }
            let ghost was = vars_view(vars@);
            let v = self.lower_expr(&fields[i].1);
            let ty = self.type_of(v);
            let mut texts = self.texts_stored(&fields[i].1, v, &ty);
            temps.append(&mut texts);
            let ghost seen = (fields@[i as int].0@, (v, ty@));
            vars.push(Var { name: fields[i].0.clone(), value: v, ty });
            assert(vars_view(vars@) =~= was.push(seen));
            i += 1;
        }
        self.make_tuple(&vars, temps)
    }

    fn lower_relation_lit(&mut self, tuples: &Vec<Vec<(String, Expr)>>) -> (v: ValueId)
        ensures
            (final(self)@, v) == relation_lowered(old(self)@, tuples@),
        decreases tuples@, 1nat, 0nat,
    {
        if tuples.len() == 0 {
            return self.empty_relation(&Heading::empty());
        }
        let ghost st = self@;
        let mut vs: Vec<ValueId> = Vec::new();
        let mut i: usize = 0;
        while i < tuples.len()
            invariant
                i <= tuples.len(),
                vs.len() == i,
                (self@, vs@) == tuples_lowered(st, tuples@, i as nat),
            decreases tuples.len() - i,
        {
            proof {
                assert(decreases_to!(tuples@ => tuples@[i as int]));
                assert(decreases_to!(tuples@[i as int] => tuples@[i as int]@));
            }
            let v = self.lower_tuple_lit(&tuples[i]);
            vs.push(v);
            i += 1;
        }
        self.make_relation(vs)
    }

    fn lower_sequence_lit(&mut self, span: Span, elements: &Vec<Expr>) -> (v: ValueId)
        ensures
            (final(self)@, v) == sequence_lowered(old(self)@, span, elements@),
        decreases elements@, 1nat, 0nat,
    {
        if elements.len() == 0 {
            self.diagnose(
                Diagnostic::error(
                    span,
                    "T0064",
                    "empty sequence values are not yet executable".to_owned(),
                ),
            );
            return self.define(ProcType::Unit);
        }
        let ghost st = self@;
        let mut vs: Vec<ValueId> = Vec::new();
        let mut i: usize = 0;
        while i < elements.len()
            invariant
                i <= elements.len(),
                vs.len() == i,
                (self@, vs@) == elements_lowered(st, elements@, i as nat),
            decreases elements.len() - i,
        {
            let v = self.lower_expr(&elements[i]);
            vs.push(v);
            i += 1;
        }
        self.make_sequence(vs)
    }

    fn lower_where_expr(&mut self, e: &Expr) -> (v: ValueId)
        ensures
            (final(self)@, v) == where_lowered(old(self)@, *e),
        decreases e, 8nat, 0nat,
    {
        let (lhs, rhs) = match &e.kind {
            ExprKind::Binary { lhs, rhs, .. } => (lhs, rhs),
            _ => {
                return self.unlowered();
            },
        };
        let src = self.lower_expr(lhs);
        let id = match self.relation_id(src) {
            Some(id) => id,
            None => {
                return self.unlowered();
            },
        };
        let h = self.heading_at(id);
        let layout = match checked_layout(&h) {
            Some(layout) => layout,
            None => {
                return self.unlowered();
            },
        };
        let name = self.where_name();
        let saved = self.enter();
        let record = self.take_param(ProcType::Pointer);
        self.begin_body();
        self.load_cells(record, &h, &layout);
        let accepted = self.lower_expr(rhs);
        self.release_deferred();
        self.finish_block(Terminator::Return(Some(accepted)));
        let params = one_param("record_ptr", ProcType::Pointer);
        self.leave(saved, name.as_str(), params, ProcType::Boolean);
        let dst = self.define(ProcType::Relation(id));
        self.emit(Inst::Where { dst, src, predicate_linkage: name, heading_id: id });
        self.release_unbound(src);
        dst
    }

    fn lower_join_inprocess(&mut self, e: &Expr) -> (v: ValueId)
        ensures
            (final(self)@, v) == combination_lowered(old(self)@, *e),
        decreases e, 8nat, 0nat,
    {
        match &e.kind {
            ExprKind::Binary { op, lhs, rhs } => {
                if let Some(rel) = self.build_rel_expr(e) {
                    if let Some(v) = self.lower_relexpr_inprocess(&rel) {
                        return v;
                    }
                }
                let l = self.lower_expr(lhs);
                let r = self.lower_expr(rhs);
                self.combine_values(*op, l, r)
            },
            _ => self.unlowered(),
        }
    }

    fn lower_values(&mut self, pairs: &Vec<(String, Expr)>) -> (r: Vec<(ValueId, ProcType)>)
        ensures
            (final(self)@, typed_values(r@)) == values_lowered(
                old(self)@,
                pairs@,
                pairs@.len(),
            ),
            r.len() == pairs.len(),
        decreases pairs@, 0nat, pairs@.len(),
    {
        let ghost st = self@;
        let mut r: Vec<(ValueId, ProcType)> = Vec::new();
        let mut i: usize = 0;
        assert(typed_values(r@) =~= Seq::empty());
        while i < pairs.len()
            invariant
                i <= pairs.len(),
                r.len() == i,
                (self@, typed_values(r@)) == values_lowered(st, pairs@, i as nat),
            decreases pairs.len() - i,
        {
            proof {
                assert(decreases_to!(pairs@ => pairs@[i as int]));
                assert(decreases_to!(pairs@[i as int] => pairs@[i as int].1));
            }
            let ghost was = typed_values(r@);
            let v = self.lower_expr(&pairs[i].1);
            let ty = self.type_of(v);
            let ghost seen = (v, ty@);
            r.push((v, ty));
            assert(typed_values(r@) =~= was.push(seen));
            i += 1;
        }
        r
    }

    fn emit_extend(
        &mut self,
        src: ValueId,
        names: &Vec<String>,
        pairs: &Vec<(String, Expr)>,
    ) -> (v: ValueId)
        requires
            names.len() == pairs.len(),
        ensures
            (final(self)@, v) == extended(old(self)@, src, names_of(names@), pairs@),
        decreases pairs@, 1nat, 0nat,
    {
        let id = match self.relation_id(src) {
            Some(id) => id,
            None => {
                return self.unlowered();
            },
        };
        let h = self.heading_at(id);
        let layout = match checked_layout(&h) {
            Some(layout) => layout,
            None => {
                return self.unlowered();
            },
        };
        let name = self.extend_name();
        let saved = self.enter();
        let source = self.take_param(ProcType::Pointer);
        let target = self.take_param(ProcType::Pointer);
        self.begin_body();
        let mut cells = self.load_cells(source, &h, &layout);
        let values = self.lower_values(pairs);
        let attrs = match widen(&h, names, &values) {
            Some(attrs) => attrs,
            None => {
                return self.unlowered();
            },
        };
        put_values(&mut cells, names, &values);
        let wide = Heading::new(attrs);
        let wide_layout = match checked_layout(&wide) {
            Some(layout) => layout,
            None => {
                return self.unlowered();
            },
        };
        let result = self.intern(&wide);
        self.store_cells(target, &wide, &wide_layout, &cells);
        self.release_deferred();
        self.finish_block(Terminator::Return(None));
        let params = two_params("src_record", ProcType::Pointer, "dst_record", ProcType::Pointer);
        self.leave(saved, name.as_str(), params, ProcType::Unit);
        let dst = self.define(ProcType::Relation(result));
        self.emit(
            Inst::Extend {
                dst,
                src,
                helper_linkage: name,
                src_heading_id: id,
                result_heading_id: result,
            },
        );
        dst
    }

    fn emit_substitute(
        &mut self,
        src: ValueId,
        pairs: &Vec<(String, Expr)>,
        removed: &Vec<String>,
    ) -> (v: ValueId)
        ensures
            (final(self)@, v) == overwritten(old(self)@, src, pairs@, names_of(removed@)),
        decreases pairs@, 2nat, 0nat,
    {
        let id = match self.relation_id(src) {
            Some(id) => id,
            None => {
                return self.unlowered();
            },
        };
        let h = self.heading_at(id);
        let names = pair_names(pairs);
        let new_names = substitute_names(&h, &names);
        proof {
            assert(names_of(names@).len() == names.len());
            assert(names_of(new_names@).len() == new_names.len());
        }
        let wide = self.emit_extend(src, &new_names, pairs);
        self.release_unbound(src);
        let keep = substitute_keep(&h, &names, removed);
        let narrow = self.project(wide, &keep, false);
        self.release_unbound(wide);
        let renames = substitute_renames(&h, &names);
        assert(name_pairs_of(renames@).len() == renames.len());
        if renames.len() == 0 {
            narrow
        } else {
            let dst = self.rename(narrow, &renames);
            self.release_unbound(narrow);
            dst
        }
    }

    fn lower_replace(&mut self, src: ValueId, pairs: &Vec<(String, Expr)>) -> (v: ValueId)
        ensures
            (final(self)@, v) == replaced(old(self)@, src, pairs@),
        decreases pairs@, 3nat, 0nat,
    {
        match self.relation_id(src) {
            Some(id) => {
                let removed = consumed_attrs(pairs, &self.heading_at(id));
                self.emit_substitute(src, pairs, &removed)
            },
            None => self.unlowered(),
        }
    }

    fn lower_if_arm(&mut self, b: &Block) -> (v: ValueId)
        ensures
            (final(self)@, v) == arm_lowered(old(self)@, *b),
        decreases b, 1nat, 0nat,
    {
        self.push_scope();
        let v = self.lower_block(b);
        self.retain_escaping(v);
        self.release_scope();
        self.pop_scope();
        v
    }

    fn lower_if_expr(&mut self, e: &Expr) -> (v: ValueId)
        ensures
            (final(self)@, v) == if_lowered(old(self)@, *e),
        decreases e, 8nat, 0nat,
    {
        match &e.kind {
            ExprKind::If { condition, then_body, else_body } => {
                let names = names_in_branches(then_body, else_body);
                let carried = self.carry(&names, e.span);
                assert(names_of(names@).len() == names.len());
                assert(vars_view(carried@).len() == carried.len());
                let cond = self.lower_expr(condition);
                if else_body.is_none() && carried.len() == 0 {
                    let then_id = self.fresh_block();
                    let merge_id = self.fresh_block();
                    self.finish_block(
                        Terminator::CondBr { cond, then_block: then_id, else_block: merge_id },
                    );
                    self.start_plain_block(then_id);
                    self.lower_if_arm(then_body);
                    self.finish_block(Terminator::Br { target: merge_id, args: Vec::new() });
                    let result = self.define(ProcType::Unit);
                    self.start_plain_block(merge_id);
                    result
                } else {
                    self.lower_branches(e, &carried, cond)
                }
            },
            _ => self.unlowered(),
        }
    }

    fn lower_branches(&mut self, e: &Expr, carried: &Vec<Var>, cond: ValueId) -> (v: ValueId)
        ensures
            (final(self)@, v) == branches_lowered(old(self)@, *e, vars_view(carried@), cond),
        decreases e, 7nat, 0nat,
    {
        match &e.kind {
            ExprKind::If { condition, then_body, else_body } => {
                let new_names = self.names_introduced(then_body, else_body);
                assert(names_of(new_names@).len() == new_names.len());
                let then_id = self.fresh_block();
                let else_id = self.fresh_block();
                let merge_id = self.fresh_block();
                self.finish_block(
                    Terminator::CondBr { cond, then_block: then_id, else_block: else_id },
                );
                self.start_plain_block(then_id);
                let then_val = self.lower_if_arm(then_body);
                let ty = self.type_of(then_val);
                let introduced = self.introduce(&new_names, e.span);
                let args = self.with_current(branch_args(&ty, then_val), carried);
                let args = with_prior(args, &introduced);
                self.finish_block(Terminator::Br { target: merge_id, args });
                self.rebind_all(carried);
                self.start_plain_block(else_id);
                let else_val = match else_body {
                    Some(b) => self.lower_if_arm(b),
                    None => self.define(ProcType::Unit),
                };
                let args = self.with_current(branch_args(&ty, else_val), carried);
                let args = self.with_current(args, &introduced);
                self.finish_block(Terminator::Br { target: merge_id, args });
                self.merge(merge_id, &ty, carried, &introduced)
            },
            _ => self.unlowered(),
        }
    }

    fn names_introduced(&self, then_body: &Block, else_body: &Option<Block>) -> (r: Vec<String>)
        ensures
            names_of(r@) == match *else_body {
                Some(b) => introduced_names(
                    self@,
                    assigned_in_block(*then_body),
                    assigned_in_block(b),
                ),
                None => Seq::empty(),
            },
    {
        match else_body {
            Some(b) => {
                let mut ours: Vec<String> = Vec::new();
                assert(names_of(ours@) =~= Seq::empty());
                collect_in_block(then_body, &mut ours);
                assert(names_of(ours@) =~= assigned_in_block(*then_body));
                let mut theirs: Vec<String> = Vec::new();
                assert(names_of(theirs@) =~= Seq::empty());
                collect_in_block(b, &mut theirs);
                assert(names_of(theirs@) =~= assigned_in_block(*b));
                self.introduced_var_names(&ours, &theirs)
            },
            None => {
                let r: Vec<String> = Vec::new();
                assert(names_of(r@) =~= Seq::empty());
                r
            },
        }
    }

    fn merge(
        &mut self,
        merge_id: BlockId,
        ty: &ProcType,
        carried: &Vec<Var>,
        introduced: &Vec<Var>,
    ) -> (v: ValueId)
        ensures
            (final(self)@, v) == merged(
                old(self)@,
                merge_id,
                ty@,
                vars_view(carried@),
                vars_view(introduced@),
            ),
    {
        reveal(merged);
        let result = self.define(ty.clone());
        if is_text(ty) {
            self.own(result);
        }
        let carried_params = self.fresh_vars(carried);
        let new_params = self.fresh_vars(introduced);
        let mut first: Vec<(ValueId, ProcType)> = Vec::new();
        if !is_unit(ty) {
            first.push((result, ty.clone()));
        }
        proof {
            if ty@ is Unit {
                assert(typed_values(first@) =~= Seq::empty());
            } else {
                assert(typed_values(first@) =~= seq![(result, ty@)]);
            }
        }
        let params = with_params(with_params(first, &carried_params), &new_params);
        self.start_block(merge_id, params);
        self.rebind_all(&carried_params);
        self.rebind_all(&new_params);
        result
    }

    /// Lowers a block.
    pub fn lower_block(&mut self, b: &Block) -> (v: ValueId)
        ensures
            (final(self)@, v) == block_lowered(old(self)@, *b),
        decreases b, 0nat, 0nat,
    {
        self.lower_stmts(&b.statements);
        match &b.tail {
            Some(e) => self.lower_expr(e),
            None => self.define(ProcType::Unit),
        }
    }

    fn lower_stmts(&mut self, stmts: &Vec<Stmt>)
        ensures
            final(self)@ == stmts_lowered(old(self)@, stmts@, stmts@.len()),
        decreases stmts@, 0nat, stmts@.len(),
    {
        let ghost st = self@;
        let mut i: usize = 0;
        while i < stmts.len()
            invariant
                i <= stmts.len(),
                self@ == stmts_lowered(st, stmts@, i as nat),
            decreases stmts.len() - i,
        {
            self.lower_stmt(&stmts[i]);
            i += 1;
        }
    }

    fn lower_stmt(&mut self, s: &Stmt)
        ensures
            final(self)@ == stmt_lowered(old(self)@, *s),
        decreases s, 5nat, 0nat,
    {
        match s {
            Stmt::Let { name, annotation, value } => {
                self.lower_let_stmt(name.as_str(), annotation, value);
            },
            Stmt::Var { name, annotation, value } => match value {
                Some(v) => {
                    self.lower_binding(name.as_str(), annotation, v);
                },
                None => {
                    self.add_pending(name.as_str());
                },
            },
            Stmt::Assign { target, value } => {
                self.lower_assign_stmt(target, value);
            },
            Stmt::Truncate { operand } => {
                self.lower_truncate_stmt(operand);
            },
            Stmt::Delete { operand } => {
                self.lower_delete_stmt(operand);
            },
            Stmt::Insert { .. } => {
                self.lower_insert_stmt(s);
            },
            Stmt::Update { .. } => {
                self.lower_update_stmt(s);
            },
            Stmt::Expr(e) => {
                self.lower_expr(e);
            },
            Stmt::For { .. } => {
                self.lower_for_stmt(s);
            },
            Stmt::While { .. } => {
                self.lower_while_stmt(s);
            },
            Stmt::DoWhile { .. } => {
                self.lower_do_while_stmt(s);
            },
            Stmt::Load { target, source, order } => {
                let rel = self.lower_expr(source);
                self.load(target.as_str(), rel, order);
            },
        }
    }

    fn lower_let_stmt(&mut self, name: &str, annotation: &Option<Type>, value: &Expr)
        ensures
            final(self)@ == let_lowered(old(self)@, name@, *annotation, *value),
        decreases value, 22nat, 0nat,
    {
        if let ExprKind::Literal(Literal::Format(chunks)) = &value.kind {
            self.bind_template(name, chunks);
            return ;
        }
        if self.pushes() {
            if let Some(rel) = self.build_rel_expr(value) {
                if self.offer(&rel).is_some() {
                    self.bind_alias(name, rel);
                    return ;
                }
            }
        }
        self.lower_binding(name, annotation, value);
    }

    fn lower_binding(&mut self, name: &str, annotation: &Option<Type>, value: &Expr)
        ensures
            final(self)@ == binding_lowered(old(self)@, name@, *annotation, *value),
        decreases value, 21nat, 0nat,
    {
        let v = match &value.kind {
            ExprKind::RelationLit { tuples } => {
                if tuples.len() == 0 {
                    self.empty_relation(&heading_of_annotation(annotation))
                } else {
                    self.lower_expr(value)
                }
            },
            _ => self.lower_expr(value),
        };
        let ty = self.type_of(v);
        self.take_over(v, &ty, is_name(value));
        self.bind(name, v, ty);
    }

    fn lower_assign_stmt(&mut self, target: &Expr, value: &Expr)
        ensures
            final(self)@ == assign_lowered(old(self)@, *target, *value),
        decreases value, 23nat, 0nat,
    {
        let name = match &target.kind {
            ExprKind::NameRef(name) => name.as_str(),
            _ => {
                return ;
            },
        };
        if names_itself(value, name) {
            return ;
        }
        if let Some((old_v, old_ty)) = self.local(name) {
            let v = self.lower_expr(value);
            let ty = self.type_of(v);
            if self.needs_scope_release(old_v, &old_ty) {
                self.emit(Inst::Release { src: old_v });
            }
            self.take_over(v, &ty, is_name(value));
            self.rebind(name, v, ty);
            return ;
        }
        if self.is_pending(name) {
            let v = self.lower_expr(value);
            let ty = self.type_of(v);
            self.take_over(v, &ty, is_name(value));
            self.bind_pending(name, v, ty);
            return ;
        }
        if self.public(name).is_some() {
            self.lower_public_assign(name, target, value);
            return ;
        }
        let v = self.lower_expr(value);
        self.store(name, v);
    }

    fn lower_public_assign(&mut self, name: &str, target: &Expr, value: &Expr)
        ensures
            final(self)@ == public_assign_lowered(old(self)@, name@, *target, *value),
        decreases value, 22nat, 0nat,
    {
        if !self.require_public_write(name, target.span) {
            return ;
        }
        if let (Some(t), Some(r)) = (self.build_rel_expr(target), self.build_rel_expr(value)) {
            if self.assign_by_statement(&t, r) {
                return ;
            }
        }
        if let Some(source) = union_insert_source(name, value) {
            if let Some(t) = self.build_rel_expr(target) {
                if self.ship_union_insert(&t, source) {
                    return ;
                }
            }
        }
        if let Some(t) = self.build_rel_expr(target) {
            if let RelExpr::RelvarRef { table_name, .. } = &t {
                self.refill(name, &t, table_name.as_str(), value);
            }
        }
    }

    fn ship_union_insert(&mut self, target: &RelExpr, source: &Expr) -> (r: bool)
        ensures
            (final(self)@, r) == shipped(old(self)@, target@, *source),
        decreases source, 21nat, 0nat,
    {
        match self.ask(SqlRequest::InsertTemplate { target: target.clone() }) {
            Some(q) => {
                let heading_id = self.intern(&q.result_heading);
                let plan_id: u32 = self.plan(&q, heading_id);
                let src = self.lower_expr(source);
                self.ship_rows(plan_id, src)
            },
            None => false,
        }
    }

    fn replace_by_query(&mut self, target: &RelExpr, value: RelExpr) -> (r: bool)
        ensures
            (final(self)@, r) == replaced_by_query(old(self)@, target@, value@),
    {
        reveal(replaced_by_query);
        match self.ask(SqlRequest::ReplaceInsert { target: target.clone(), value }) {
            Some(insert) => match self.ask(SqlRequest::Truncate { target: target.clone() }) {
                Some(truncate) => {
                    self.dml(&truncate);
                    self.dml(&insert);
                    true
                },
                None => false,
            },
            None => false,
        }
    }

    fn refill(&mut self, name: &str, target: &RelExpr, table: &str, value: &Expr)
        ensures
            final(self)@ == refilled(old(self)@, name@, target@, table@, *value),
        decreases value, 21nat, 0nat,
    {
        if let Some(x) = self.build_rel_expr(value) {
            if x.references_table(table) {
                let message = text_about(
                    "assignment to public relvar `",
                    name,
                    "` is self-referential but not a recognized surgical shape",
                );
                self.diagnose(Diagnostic::error(value.span, "T0049", message));
                return ;
            }
            if self.replace_by_query(target, x) {
                return ;
            }
        }
        if let Some(template) = self.ask(SqlRequest::InsertTemplate { target: target.clone() }) {
            if let Some(truncate) = self.ask(SqlRequest::Truncate { target: target.clone() }) {
                self.dml(&truncate);
                let heading_id = self.intern(&template.result_heading);
                let plan_id: u32 = self.plan(&template, heading_id);
                let src = self.lower_expr(value);
                if self.ship_rows(plan_id, src) {
                    return ;
                }
            }
        }
        let message = text_about(
            "assignment to public relvar `",
            name,
            "` is not a supported write shape",
        );
        self.diagnose(Diagnostic::error(value.span, "T0049", message));
    }

    fn lower_truncate_stmt(&mut self, operand: &Expr)
        ensures
            final(self)@ == truncate_lowered(old(self)@, *operand),
        decreases operand, 21nat, 0nat,
    {
        let name = match &operand.kind {
            ExprKind::NameRef(name) => name.as_str(),
            _ => {
                return ;
            },
        };
        if self.public(name).is_some() {
            if !self.require_public_write(name, operand.span) {
                return ;
            }
            if let Some(t) = self.build_rel_expr(operand) {
                let value = RelExpr::Minus { lhs: Box::new(t.clone()), rhs: Box::new(t.clone()) };
                self.assign_by_statement(&t, value);
            }
            return ;
        }
        let l = self.lower_expr(operand);
        let r = self.lower_expr(operand);
        let v = self.subtract(l, r);
        self.store(name, v);
    }

    fn lower_delete_stmt(&mut self, operand: &Expr)
        ensures
            final(self)@ == delete_lowered(old(self)@, *operand),
        decreases operand, 21nat, 0nat,
    {
        let lhs = match &operand.kind {
            ExprKind::Binary { lhs, .. } => lhs,
            _ => {
                return ;
            },
        };
        let name = match attr_ref_name(lhs) {
            Some(name) => name,
            None => {
                return ;
            },
        };
        if self.public(name.as_str()).is_some() {
            if !self.require_public_write(name.as_str(), operand.span) {
                return ;
            }
            if let (Some(t), Some(r)) = (self.build_rel_expr(lhs), self.build_rel_expr(operand)) {
                let value = RelExpr::Minus { lhs: Box::new(t.clone()), rhs: Box::new(r) };
                if self.assign_by_statement(&t, value) {
                    return ;
                }
            }
            let message = text_about(
                "cannot delete from public relvar `",
                name.as_str(),
                "`: predicate is not a recognized surgical shape",
            );
            self.diagnose(Diagnostic::error(operand.span, "T0049", message));
            return ;
        }
        let l = self.lower_expr(lhs);
        let r = self.lower_expr(operand);
        let v = self.subtract(l, r);
        self.store(name.as_str(), v);
    }

    fn lower_insert_stmt(&mut self, s: &Stmt)
        ensures
            final(self)@ == insert_lowered(old(self)@, *s),
        decreases s, 4nat, 0nat,
    {
        if let Stmt::Insert { target, source } = s {
            let name = match attr_ref_name(target) {
                Some(name) => name,
                None => {
                    return ;
                },
            };
            if self.public(name.as_str()).is_some() {
                if !self.require_public_write(name.as_str(), target.span) {
                    return ;
                }
                let t = match self.build_rel_expr(target) {
                    Some(t) => t,
                    None => {
                        return ;
                    },
                };
                if let Some(r) = self.build_rel_expr(source) {
                    let value = RelExpr::Or { lhs: Box::new(t.clone()), rhs: Box::new(r) };
                    if self.assign_by_statement(&t, value) {
                        return ;
                    }
                }
                self.ship_union_insert(&t, source);
                return ;
            }
            let l = self.lower_expr(target);
            let r = self.lower_expr(source);
            let v = self.unite(l, r);
            self.store(name.as_str(), v);
        }
    }

    fn lower_update_stmt(&mut self, s: &Stmt)
        ensures
            final(self)@ == update_lowered(old(self)@, *s),
        decreases s, 4nat, 0nat,
    {
        if let Stmt::Update { operand, pairs } = s {
            let (root, has_where) = match &operand.kind {
                ExprKind::NameRef(_) => (operand, false),
                ExprKind::Binary { op: BinaryOp::Where, lhs, .. } => (&**lhs, true),
                _ => {
                    return ;
                },
            };
            assert(update_root(*operand) == Some((*root, has_where)));
            let name = match attr_ref_name(root) {
                Some(name) => name,
                None => {
                    return ;
                },
            };
            let removed = pair_names(pairs);
            if self.public(name.as_str()).is_some() {
                self.lower_public_update(
                    name.as_str(),
                    root,
                    operand,
                    has_where,
                    pairs,
                    &removed,
                );
                return ;
            }
            let matching = self.lower_expr(operand);
            let changed = self.emit_substitute(matching, pairs, &removed);
            if has_where {
                let all = self.lower_expr(root);
                let again = self.lower_expr(operand);
                let unchanged = self.subtract(all, again);
                let v = self.unite(unchanged, changed);
                self.store(name.as_str(), v);
            } else {
                self.store(name.as_str(), changed);
            }
        }
    }

    fn lower_for_stmt(&mut self, s: &Stmt)
        ensures
            final(self)@ == for_lowered(old(self)@, *s),
        decreases s, 4nat, 0nat,
    {
        if let Stmt::For { span, name, over, body } = s {
            match over {
                ForRange::Counted { low, high } => {
                    let lo = self.lower_expr(low);
                    let hi = self.lower_expr(high);
                    self.lower_counted_loop(lo, hi, body, *span, RoundVar::Counter(name.clone()));
                },
                ForRange::Elements(e) => {
                    self.push_scope();
                    let seq = self.lower_expr(e);
                    let ty = self.type_of(seq);
                    self.hold_sequence(seq, is_name(e));
                    let (lo, hi) = self.bounds_of(seq);
                    let var = RoundVar::Element {
                        seq,
                        ty: elements_of(&ty),
                        name: name.clone(),
                    };
                    self.lower_counted_loop(lo, hi, body, *span, var);
                    self.release_scope();
                    self.pop_scope();
                },
            }
        }
    }

    fn lower_counted_loop(
        &mut self,
        lo: ValueId,
        hi: ValueId,
        body: &Block,
        span: Span,
        var: RoundVar,
    )
        ensures
            final(self)@ == counted_loop(old(self)@, lo, hi, *body, span, var@),
        decreases body, 2nat, 0nat,
    {
        let names = names_assigned(body);
        assert(names_of(names@).len() == names.len());
        let carried = self.carry(&names, span);
        let header = self.fresh_block();
        let body_id = self.fresh_block();
        let exit = self.fresh_block();
        let (counter, params) = self.open_loop(lo, hi, &carried, header, body_id, exit);
        self.push_scope();
        self.bind_loop_var(&var, counter);
        self.lower_block(body);
        self.release_scope();
        self.pop_scope();
        self.close_loop(counter, &carried, &params, header, exit);
    }

    fn lower_while_stmt(&mut self, s: &Stmt)
        ensures
            final(self)@ == while_lowered(old(self)@, *s),
        decreases s, 4nat, 0nat,
    {
        if let Stmt::While { span, condition, body } = s {
            let names = names_assigned(body);
            assert(names_of(names@).len() == names.len());
            let carried = self.carry(&names, *span);
            assert(vars_view(carried@).len() == carried.len());
            let header = self.fresh_block();
            let body_id = self.fresh_block();
            let exit = self.fresh_block();
            let args = with_prior(Vec::new(), &carried);
            assert(args@ =~= prior_values(vars_view(carried@)));
            self.finish_block(Terminator::Br { target: header, args });
            let params = self.fresh_vars(&carried);
            let none: Vec<(ValueId, ProcType)> = Vec::new();
            let block_params = with_params(none, &params);
            assert(typed_values(block_params@) =~= crate::lower::steps::var_params(
                vars_view(params@),
            ));
            self.start_block(header, block_params);
            self.rebind_all(&params);
            let cond = self.lower_expr(condition);
            self.finish_block(Terminator::CondBr { cond, then_block: body_id, else_block: exit });
            self.start_plain_block(body_id);
            self.push_scope();
            self.lower_block(body);
            self.release_scope();
            self.pop_scope();
            let ghost st = self@;
            let args = self.with_current(Vec::new(), &carried);
            assert(args@ =~= current_values(st, vars_view(carried@)));
            self.finish_block(Terminator::Br { target: header, args });
            self.start_plain_block(exit);
            self.rebind_all(&params);
        }
    }

    fn lower_do_while_stmt(&mut self, s: &Stmt)
        ensures
            final(self)@ == do_while_lowered(old(self)@, *s),
        decreases s, 4nat, 0nat,
    {
        if let Stmt::DoWhile { span, body, condition } = s {
            let names = names_assigned(body);
            assert(names_of(names@).len() == names.len());
            let carried = self.carry(&names, *span);
            assert(vars_view(carried@).len() == carried.len());
            let body_id = self.fresh_block();
            let latch = self.fresh_block();
            let exit = self.fresh_block();
            let args = with_prior(Vec::new(), &carried);
            assert(args@ =~= prior_values(vars_view(carried@)));
            self.finish_block(Terminator::Br { target: body_id, args });
            let params = self.fresh_vars(&carried);
            let none: Vec<(ValueId, ProcType)> = Vec::new();
            let block_params = with_params(none, &params);
            assert(typed_values(block_params@) =~= crate::lower::steps::var_params(
                vars_view(params@),
            ));
            self.start_block(body_id, block_params);
            self.rebind_all(&params);
            self.push_scope();
            self.lower_block(body);
            self.release_scope();
            self.pop_scope();
            let ghost st = self@;
            let now = self.with_current(Vec::new(), &carried);
            assert(now@ =~= current_values(st, vars_view(carried@)));
            let cond = self.lower_expr(condition);
            self.finish_block(Terminator::CondBr { cond, then_block: latch, else_block: exit });
            self.start_plain_block(latch);
            let finals = vars_with_values(&carried, &now);
            self.finish_block(Terminator::Br { target: body_id, args: now });
            self.start_plain_block(exit);
            self.rebind_all(&finals);
        }
    }
}

} // verus!
