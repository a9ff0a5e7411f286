//! The lowering of a program, carried out.

use crate::ast::{Item, OperDecl, RelvarInfo, RelvarKind, TypeRef};
use crate::ir::{
    blocks_view, functions_view, insts_view, numbered, params_view, plans_view, relvars_view,
    BasicBlock, BlockView, Function, HeadingId, Inst, InstView, Module, PlanEntry, ProcType,
    ProcTypeView, PublicRelvarBinding, RelvarView, Terminator,
};
use crate::lower::emit::is_unit;
use crate::lower::kinds::{maybe_proc, proc_type_from_type_ref};
use crate::lower::lowerer::{publics_view, Lowerer, OperSig, Product};
use crate::lower::program::{
    call_index, calling_block, current_public, declared_params, declared_type, epilogue,
    function_index, insert_relvar, is_call, items_lowered, module_of, oper_lowered, opers_known,
    params_bound, plan_registrations, private_relvars, privates_known, program_name, prologue,
    public_inits, public_releases, publics_known, signature, spliced, used_slots, with_prologue,
    ResolvedRelvar,
};
use crate::lower::state::{last_public, State, WritePolicy};
use crate::rel_expr::{copy_name_lists, copy_pairs};
use crate::text::{before, comes_before, has_name, names_of, same_text, Name};
use crate::types::{Heading, HeadingView};
use vstd::prelude::*;

verus! {

fn type_of_declaration(t: &Option<TypeRef>) -> (r: Option<ProcType>)
    ensures
        maybe_proc(r) == declared_type(*t),
{
    match t {
        Some(t) => proc_type_from_type_ref(t),
        None => Some(ProcType::Unit),
    }
}

proof fn lemma_params_prefix(params: Seq<(String, Option<TypeRef>)>, n: nat, m: nat)
    requires
        n <= m,
        declared_params(params, n) is None,
    ensures
        declared_params(params, m) is None,
    decreases m,
{
    if n < m {
        lemma_params_prefix(params, n, (m - 1) as nat);
    }
}

/// An operator's parameters and return type.
pub fn oper_signature(o: &OperDecl) -> (r: Option<OperSig>)
    ensures
        signature(*o) == match r {
            Some(sig) => Some(sig@),
            None => None::<(Seq<(Name, ProcTypeView)>, ProcTypeView)>,
        },
{
    let mut params: Vec<(String, ProcType)> = Vec::new();
    let mut i: usize = 0;
    assert(params_view(params@) =~= Seq::empty());
    while i < o.params.len()
        invariant
            i <= o.params.len(),
            declared_params(o.params@, i as nat) == Some(params_view(params@)),
        decreases o.params.len() - i,
    {
        match type_of_declaration(&o.params[i].1) {
            Some(ty) => {
                let ghost was = params_view(params@);
                let ghost seen = (o.params@[i as int].0@, ty@);
                params.push((o.params[i].0.clone(), ty));
                assert(params_view(params@) =~= was.push(seen));
            },
            None => {
                proof {
                    lemma_params_prefix(o.params@, (i + 1) as nat, o.params@.len());
                }
                return None;
            },
        }
        i += 1;
    }
    match type_of_declaration(&o.return_type) {
        Some(return_type) => Some(OperSig { params, return_type }),
        None => None,
    }
}

/// The program's name: that of the last item that gives one.
pub fn find_program_name(items: &Vec<Item>) -> (r: String)
    ensures
        r@ == program_name(items@, items@.len()),
{
    let mut r = String::new();
    let mut i: usize = 0;
    assert(r@ =~= Seq::empty());
    while i < items.len()
        invariant
            i <= items.len(),
            r@ == program_name(items@, i as nat),
        decreases items.len() - i,
    {
        if let Item::Program { name } = &items[i] {
            r = name.clone();
        }
        i += 1;
    }
    r
}

/// What a list of relvars with their headings stands for.
pub open spec fn relvar_headings(s: Seq<(String, Heading)>) -> Seq<(Name, HeadingView)> {
    Seq::new(s.len(), |i: int| (s[i].0@, s[i].1@))
}

proof fn lemma_insert_relvar(s: Seq<(Name, HeadingView)>, x: (Name, HeadingView), p: int)
    requires
        0 <= p <= s.len(),
        forall|j: int| p <= j < s.len() ==> before(x.0, (#[trigger] s[j]).0),
        p > 0 ==> !before(x.0, s[p - 1].0),
    ensures
        s.insert(p, x) == insert_relvar(s, x),
    decreases s.len(),
{
    if p == s.len() {
        assert(s.insert(p, x) =~= s.push(x));
    } else {
        let t = s.drop_last();
        assert forall|j: int| p <= j < t.len() implies before(x.0, (#[trigger] t[j]).0) by {
            assert(t[j] == s[j]);
        }
        lemma_insert_relvar(t, x, p);
        assert(before(x.0, s[s.len() - 1].0));
        assert(s.insert(p, x) =~= t.insert(p, x).push(s.last()));
    }
}

fn insert_by_name(v: &mut Vec<(String, Heading)>, name: &str, h: Heading)
    ensures
        relvar_headings(final(v)@) == insert_relvar(relvar_headings(old(v)@), (name@, h@)),
{
    let ghost was = relvar_headings(v@);
    let n: usize = v.len();
    let mut p: usize = n;
    while p > 0 && comes_before(name, v[p - 1].0.as_str())
        invariant
            p <= n == v.len(),
            was == relvar_headings(v@),
            forall|j: int| p <= j < was.len() ==> before(name@, (#[trigger] was[j]).0),
        decreases p,
    {
        p -= 1;
    }
    proof {
        lemma_insert_relvar(was, (name@, h@), p as int);
    }
    v.insert(p, (name.to_owned(), h));
    assert(relvar_headings(v@) =~= was.insert(p as int, (name@, h@)));
}

/// The private relvars, in name order.
pub fn sorted_privates(relvars: &Vec<RelvarInfo>) -> (r: Vec<(String, Heading)>)
    ensures
        relvar_headings(r@) == private_relvars(relvars@, relvars@.len()),
{
    let mut r: Vec<(String, Heading)> = Vec::new();
    let mut i: usize = 0;
    assert(relvar_headings(r@) =~= Seq::empty());
    while i < relvars.len()
        invariant
            i <= relvars.len(),
            relvar_headings(r@) == private_relvars(relvars@, i as nat),
        decreases relvars.len() - i,
    {
        if relvars[i].kind == RelvarKind::Private {
            insert_by_name(&mut r, relvars[i].name.as_str(), relvars[i].heading.clone());
        }
        i += 1;
    }
    r
}

impl<const COLLECT: bool> Lowerer<COLLECT> {
    /// Makes the public relvars of a plan known.
    pub fn absorb_plan(&mut self, resolved: &Vec<ResolvedRelvar>)
        ensures
            final(self)@ == publics_known(old(self)@, resolved@, resolved@.len()),
    {
        let ghost st = self@;
        let mut i: usize = 0;
        while i < resolved.len()
            invariant
                i <= resolved.len(),
                self@ == publics_known(st, resolved@, i as nat),
            decreases resolved.len() - i,
        {
            let r = &resolved[i];
            let heading_id = self.intern(&r.heading);
            let binding = PublicRelvarBinding {
                name: r.app_name.clone(),
                heading_id,
                table_name: r.table_name.clone(),
                columns: copy_pairs(&r.columns),
                keys: copy_name_lists(&r.keys),
            };
            self.add_public(binding, r.write_policy);
            i += 1;
        }
    }

    /// Makes the private relvars known.
    pub fn absorb_private_relvars(&mut self, relvars: &Vec<RelvarInfo>)
        ensures
            final(self)@ == privates_known(
                old(self)@,
                private_relvars(relvars@, relvars@.len()),
                private_relvars(relvars@, relvars@.len()).len(),
            ),
    {
        let ghost st = self@;
        let privates = sorted_privates(relvars);
        let ghost ps = relvar_headings(privates@);
        let mut i: usize = 0;
        while i < privates.len()
            invariant
                i <= privates.len(),
                ps == relvar_headings(privates@),
                self@ == privates_known(st, ps, i as nat),
            decreases privates.len() - i,
        {
            let id = self.intern(&privates[i].1);
            self.add_private(privates[i].0.as_str(), id);
            i += 1;
        }
    }

    /// Makes the program's operators known.
    pub fn absorb_opers(&mut self, items: &Vec<Item>)
        ensures
            final(self)@ == opers_known(old(self)@, items@, items@.len()),
    {
        let ghost st = self@;
        let mut i: usize = 0;
        while i < items.len()
            invariant
                i <= items.len(),
                self@ == opers_known(st, items@, i as nat),
            decreases items.len() - i,
        {
            if let Item::Oper(o) = &items[i] {
                match oper_signature(o) {
                    Some(sig) => {
                        self.add_oper(o.name.as_str(), sig);
                    },
                    None => {
                        self.not_lowered();
                    },
                }
            }
            i += 1;
        }
    }

    fn bind_params(&mut self, params: &Vec<(String, ProcType)>)
        ensures
            final(self)@ == params_bound(old(self)@, params_view(params@), params@.len()),
    {
        let ghost st = self@;
        let ghost ps = params_view(params@);
        let mut i: usize = 0;
        while i < params.len()
            invariant
                i <= params.len(),
                ps == params_view(params@),
                self@ == params_bound(st, ps, i as nat),
            decreases params.len() - i,
        {
            assert(ps[i as int] == (params@[i as int].0@, params@[i as int].1@));
            let v = self.take_param(params[i].1.clone());
            self.bind(params[i].0.as_str(), v, params[i].1.clone());
            i += 1;
        }
    }

    fn lower_oper_decl(&mut self, o: &OperDecl, sig: OperSig)
        ensures
            final(self)@ == oper_lowered(old(self)@, *o, sig@.0, sig@.1),
    {
        reveal(oper_lowered);
        let is_main = same_text(o.name.as_str(), "main");
        self.reset_function();
        assert(sig@.0.len() == sig.params@.len());
        self.bind_params(&sig.params);
        self.begin_body();
        if is_main {
            self.call_runtime("coddl_runtime_init");
        }
        let value = match &o.body {
            Some(b) => Some(self.lower_block(b)),
            None => None,
        };
        let returned = if is_main || is_unit(&sig.return_type) {
            None
        } else {
            value
        };
        if let Some(v) = returned {
            self.retain_escaping(v);
        }
        self.release_scope();
        self.release_deferred();
        if is_main {
            self.call_runtime("coddl_runtime_shutdown");
        }
        self.finish_block(Terminator::Return(returned));
        self.add_function(o.name.as_str(), sig.params, sig.return_type);
    }

    /// Lowers the program's operators.
    pub fn lower_items(&mut self, items: &Vec<Item>)
        ensures
            final(self)@ == items_lowered(old(self)@, items@, items@.len()),
    {
        let ghost st = self@;
        let mut i: usize = 0;
        while i < items.len()
            invariant
                i <= items.len(),
                self@ == items_lowered(st, items@, i as nat),
            decreases items.len() - i,
        {
            if let Item::Oper(o) = &items[i] {
                match oper_signature(o) {
                    Some(sig) => {
                        self.lower_oper_decl(o, sig);
                    },
                    None => {
                        self.not_lowered();
                    },
                }
            }
            i += 1;
        }
    }
}

/// Whether the instruction is a call of that function.
fn calls(inst: &Inst, callee: &str) -> (r: bool)
    ensures
        r == is_call(inst@, callee@),
{
    match inst {
        Inst::Call { callee: c, .. } => same_text(c.as_str(), callee),
        _ => false,
    }
}

fn find_call(insts: &Vec<Inst>, callee: &str) -> (r: usize)
    ensures
        r == call_index(insts_view(insts@), callee@),
        r <= insts.len(),
{
    let ghost s = insts_view(insts@);
    let mut i: usize = 0;
    assert(s.skip(0) =~= s);
    while i < insts.len()
        invariant
            i <= insts.len(),
            s == insts_view(insts@),
            call_index(s, callee@) == i + call_index(s.skip(i as int), callee@),
        decreases insts.len() - i,
    {
        assert(s.skip(i as int)[0] == insts@[i as int]@);
        if calls(&insts[i], callee) {
            return i;
        }
        assert(s.skip(i as int).drop_first() =~= s.skip(i as int + 1));
        i += 1;
    }
    i
}

fn find_calling_block(blocks: &Vec<BasicBlock>, callee: &str) -> (r: usize)
    ensures
        r == calling_block(blocks_view(blocks@), callee@),
        r <= blocks.len(),
{
    let ghost s = blocks_view(blocks@);
    let mut i: usize = 0;
    assert(s.skip(0) =~= s);
    while i < blocks.len()
        invariant
            i <= blocks.len(),
            s == blocks_view(blocks@),
            calling_block(s, callee@) == i + calling_block(s.skip(i as int), callee@),
        decreases blocks.len() - i,
    {
        assert(s.skip(i as int)[0] == blocks@[i as int]@);
        if find_call(&blocks[i].insts, callee) < blocks[i].insts.len() {
            return i;
        }
        assert(s.skip(i as int).drop_first() =~= s.skip(i as int + 1));
        i += 1;
    }
    i
}

/// The instructions with others put in at a place.
fn insts_with(insts: Vec<Inst>, at: usize, added: Vec<Inst>) -> (r: Vec<Inst>)
    requires
        at <= insts.len(),
    ensures
        insts_view(r@) == insts_view(insts@).take(at as int) + insts_view(added@) + insts_view(
            insts@,
        ).skip(at as int),
{
    let ghost s = insts_view(insts@);
    let ghost a = insts_view(added@);
    let mut head = insts;
    let mut tail = head.split_off(at);
    let mut middle = added;
    head.append(&mut middle);
    head.append(&mut tail);
    assert(insts_view(head@) =~= s.take(at as int) + a + s.skip(at as int));
    head
}

/// Puts instructions in `offset` places behind the first call of a function.
fn splice(blocks: &mut Vec<BasicBlock>, callee: &str, offset: usize, added: Vec<Inst>)
    requires
        offset <= 1,
    ensures
        blocks_view(final(blocks)@) == spliced(
            blocks_view(old(blocks)@),
            callee@,
            offset as nat,
            insts_view(added@),
        ),
{
    let ghost was = blocks_view(blocks@);
    let b: usize = find_calling_block(blocks, callee);
    if b < blocks.len() {
        proof {
            lemma_calling_block(was, callee@);
            assert(was[b as int] == blocks@[b as int]@);
        }
        let at: usize = find_call(&blocks[b].insts, callee) + offset;
        let mut insts: Vec<Inst> = Vec::new();
        let mut block = BasicBlock {
            id: blocks[b].id,
            params: Vec::new(),
            insts: Vec::new(),
            terminator: Terminator::Unreachable,
        };
        std::mem::swap(&mut block, &mut blocks[b]);
        std::mem::swap(&mut insts, &mut block.insts);
        block.insts = insts_with(insts, at, added);
        let ghost seen = block@;
        blocks.set(b, block);
        assert(blocks_view(blocks@) =~= was.update(b as int, seen));
    }
}

proof fn lemma_calling_block(blocks: Seq<BlockView>, callee: Name)
    requires
        calling_block(blocks, callee) < blocks.len(),
    ensures
        ({
            let b = blocks[calling_block(blocks, callee) as int];
            call_index(b.insts, callee) < b.insts.len()
        }),
    decreases blocks.len(),
{
    if !(call_index(blocks[0].insts, callee) < blocks[0].insts.len()) {
        lemma_calling_block(blocks.drop_first(), callee);
    }
}

fn find_function(functions: &Vec<Function>, name: &str) -> (r: usize)
    ensures
        r == function_index(functions_view(functions@), name@),
        r <= functions.len(),
{
    let ghost s = functions_view(functions@);
    let mut i: usize = 0;
    assert(s.skip(0) =~= s);
    while i < functions.len()
        invariant
            i <= functions.len(),
            s == functions_view(functions@),
            function_index(s, name@) == i + function_index(s.skip(i as int), name@),
        decreases functions.len() - i,
    {
        assert(s.skip(i as int)[0] == functions@[i as int]@);
        if same_text(functions[i].name.as_str(), name) {
            return i;
        }
        assert(s.skip(i as int).drop_first() =~= s.skip(i as int + 1));
        i += 1;
    }
    i
}

/// Gives `main` its prologue and its epilogue.
fn finalize_main_prologue(functions: &mut Vec<Function>, first: Vec<Inst>, last: Vec<Inst>)
    ensures
        functions_view(final(functions)@) == with_prologue(
            functions_view(old(functions)@),
            insts_view(first@),
            insts_view(last@),
        ),
{
    let ghost was = functions_view(functions@);
    let m: usize = find_function(functions, "main");
    proof {
        assert(insts_view(first@).len() == first.len());
        assert(insts_view(last@).len() == last.len());
    }
    if m < functions.len() {
        assert(was[m as int] == functions@[m as int]@);
        let mut main = Function {
            name: String::new(),
            linkage_name: String::new(),
            params: Vec::new(),
            return_type: ProcType::Unit,
            blocks: Vec::new(),
        };
        std::mem::swap(&mut main, &mut functions[m]);
        if first.len() > 0 {
            splice(&mut main.blocks, "coddl_runtime_init", 1, first);
        }
        if last.len() > 0 {
            splice(&mut main.blocks, "coddl_runtime_shutdown", 0, last);
        }
        let ghost seen = main@;
        functions.set(m, main);
        assert(functions_view(functions@) =~= was.update(m as int, seen));
    }
}

fn find_public(publics: &Vec<(PublicRelvarBinding, WritePolicy)>, name: &str) -> (r: Option<usize>)
    ensures
        match r {
            Some(i) => i < publics.len() && last_public(publics_view(publics@), name@) == Some(
                publics_view(publics@)[i as int],
            ),
            None => last_public(publics_view(publics@), name@) is None,
        },
{
    let ghost ps = publics_view(publics@);
    let mut n: usize = publics.len();
    assert(ps.take(n as int) =~= ps);
    while n > 0
        invariant
            n <= publics.len(),
            ps == publics_view(publics@),
            last_public(ps, name@) == last_public(ps.take(n as int), name@),
        decreases n,
    {
        proof {
            let t = ps.take(n as int);
            assert(t.last() == ps[n - 1]);
            assert(t.drop_last() =~= ps.take(n - 1));
        }
        if same_text(publics[n - 1].0.name.as_str(), name) {
            return Some(n - 1);
        }
        n -= 1;
    }
    None
}

proof fn lemma_public_found(publics: Seq<(RelvarView, WritePolicy)>, i: int)
    requires
        0 <= i < publics.len(),
    ensures
        last_public(publics, publics[i].0.name) is Some,
    decreases publics.len(),
{
    if i < publics.len() - 1 {
        lemma_public_found(publics.drop_last(), i);
    }
}

/// The slots of private relvars that are used.
fn slots_used(privates: &Vec<(String, HeadingId)>, used: &Vec<String>) -> (r: Vec<
    (String, HeadingId),
>)
    ensures
        numbered(r@) == used_slots(numbered(privates@), names_of(used@), privates@.len()),
{
    let ghost ps = numbered(privates@);
    let mut r: Vec<(String, HeadingId)> = Vec::new();
    let mut i: usize = 0;
    assert(numbered(r@) =~= Seq::empty());
    while i < privates.len()
        invariant
            i <= privates.len(),
            ps == numbered(privates@),
            numbered(r@) == used_slots(ps, names_of(used@), i as nat),
        decreases privates.len() - i,
    {
        assert(ps[i as int] == (privates@[i as int].0@, privates@[i as int].1));
        if has_name(used, privates[i].0.as_str()) {
            let ghost was = numbered(r@);
            r.push((privates[i].0.clone(), privates[i].1));
            assert(numbered(r@) =~= was.push(ps[i as int]));
        }
        i += 1;
    }
    r
}

fn push_inst(v: &mut Vec<Inst>, inst: Inst)
    ensures
        insts_view(final(v)@) == insts_view(old(v)@).push(inst@),
{
    let ghost was = insts_view(v@);
    v.push(inst);
    assert(insts_view(v@) =~= was.push(inst@));
}

/// The instructions that make the plans known.
fn registrations(plans: &Vec<PlanEntry>) -> (r: Vec<Inst>)
    ensures
        insts_view(r@) == plan_registrations(plans_view(plans@)),
{
    let ghost ps = plans_view(plans@);
    let mut r: Vec<Inst> = Vec::new();
    assert(insts_view(r@) =~= Seq::empty());
    if plans.len() > 0 {
        push_inst(&mut r, Inst::RegisterDatabase);
        let mut i: usize = 0;
        while i < plans.len()
            invariant
                i <= plans.len(),
                ps == plans_view(plans@),
                insts_view(r@) =~= seq![InstView::RegisterDatabase] + Seq::new(
                    i as nat,
                    |j: int| InstView::RegisterPlan { plan_id: ps[j].plan_id },
                ),
            decreases plans.len() - i,
        {
            assert(ps[i as int] == plans@[i as int]@);
            push_inst(&mut r, Inst::RegisterPlan { plan_id: plans[i].plan_id });
            i += 1;
        }
    }
    assert(insts_view(r@) =~= plan_registrations(ps));
    r
}

/// Adds the instructions that fill the slots of public relvars.
fn push_public_inits(
    publics: &Vec<(PublicRelvarBinding, WritePolicy)>,
    legacy: &Vec<String>,
    out: &mut Vec<Inst>,
)
    ensures
        insts_view(final(out)@) == insts_view(old(out)@) + public_inits(
            publics_view(publics@),
            names_of(legacy@),
            publics@.len(),
        ),
{
    let ghost was = insts_view(out@);
    let ghost ps = publics_view(publics@);
    let ghost names = names_of(legacy@);
    let mut i: usize = 0;
    assert(was + public_inits(ps, names, 0) =~= was);
    while i < publics.len()
        invariant
            i <= publics.len(),
            ps == publics_view(publics@),
            names == names_of(legacy@),
            insts_view(out@) == was + public_inits(ps, names, i as nat),
        decreases publics.len() - i,
    {
        let name = publics[i].0.name.as_str();
        proof {
            lemma_public_found(ps, i as int);
            assert(ps[i as int].0 == publics@[i as int].0@);
        }
        if has_name(legacy, name) {
            if let Some(at) = find_public(publics, name) {
                assert(ps[at as int].0 == publics@[at as int].0@);
                push_inst(
                    out,
                    Inst::RelvarSlotInit {
                        name: name.to_owned(),
                        heading_id: publics[at].0.heading_id,
                    },
                );
            }
        }
        assert(insts_view(out@) =~= was + public_inits(ps, names, (i + 1) as nat));
        i += 1;
    }
}

/// The instructions that let the slots of public relvars go.
fn public_slot_releases(
    publics: &Vec<(PublicRelvarBinding, WritePolicy)>,
    legacy: &Vec<String>,
) -> (r: Vec<Inst>)
    ensures
        insts_view(r@) == public_releases(
            publics_view(publics@),
            names_of(legacy@),
            publics@.len(),
        ),
{
    let ghost ps = publics_view(publics@);
    let ghost names = names_of(legacy@);
    let mut out: Vec<Inst> = Vec::new();
    let mut i: usize = 0;
    assert(insts_view(out@) =~= Seq::empty());
    while i < publics.len()
        invariant
            i <= publics.len(),
            ps == publics_view(publics@),
            names == names_of(legacy@),
            insts_view(out@) == public_releases(ps, names, i as nat),
        decreases publics.len() - i,
    {
        let name = publics[i].0.name.as_str();
        assert(ps[i as int].0 == publics@[i as int].0@);
        if has_name(legacy, name) {
            push_inst(&mut out, Inst::RelvarSlotRelease { name: name.to_owned() });
        }
        i += 1;
    }
    out
}

/// Adds the instructions that empty the slots of private relvars.
fn push_private_inits(slots: &Vec<(String, HeadingId)>, out: &mut Vec<Inst>)
    ensures
        insts_view(final(out)@) == insts_view(old(out)@) + Seq::new(
            slots@.len(),
            |i: int|
                InstView::PrivateRelvarSlotInit { name: slots@[i].0@, heading_id: slots@[i].1 },
        ),
{
    let ghost was = insts_view(out@);
    let mut i: usize = 0;
    while i < slots.len()
        invariant
            i <= slots.len(),
            insts_view(out@) =~= was + Seq::new(
                i as nat,
                |j: int|
                    InstView::PrivateRelvarSlotInit {
                        name: slots@[j].0@,
                        heading_id: slots@[j].1,
                    },
            ),
        decreases slots.len() - i,
    {
        push_inst(
            out,
            Inst::PrivateRelvarSlotInit { name: slots[i].0.clone(), heading_id: slots[i].1 },
        );
        i += 1;
    }
}

/// Adds the instructions that let the slots of private relvars go.
fn push_private_releases(slots: &Vec<(String, HeadingId)>, out: &mut Vec<Inst>)
    ensures
        insts_view(final(out)@) == insts_view(old(out)@) + Seq::new(
            slots@.len(),
            |i: int| InstView::RelvarSlotRelease { name: slots@[i].0@ },
        ),
{
    let ghost was = insts_view(out@);
    let mut i: usize = 0;
    while i < slots.len()
        invariant
            i <= slots.len(),
            insts_view(out@) =~= was + Seq::new(
                i as nat,
                |j: int| InstView::RelvarSlotRelease { name: slots@[j].0@ },
            ),
        decreases slots.len() - i,
    {
        push_inst(out, Inst::RelvarSlotRelease { name: slots[i].0.clone() });
        i += 1;
    }
}

fn build_prologue(p: &Product, slots: &Vec<(String, HeadingId)>, Ghost(st): Ghost<State>) -> (r: Vec<
    Inst,
>)
    requires
        p.is_code_of(st),
        numbered(slots@) == used_slots(st.env.privates, st.used_private, st.env.privates.len()),
    ensures
        insts_view(r@) == prologue(st),
{
    let mut out = registrations(&p.plans);
    push_public_inits(&p.publics, &p.legacy, &mut out);
    push_private_inits(slots, &mut out);
    proof {
        assert(p.publics@.len() == st.env.publics.len());
        assert(insts_view(out@) =~= prologue(st));
    }
    out
}

fn build_epilogue(p: &Product, slots: &Vec<(String, HeadingId)>, Ghost(st): Ghost<State>) -> (r: Vec<
    Inst,
>)
    requires
        p.is_code_of(st),
        numbered(slots@) == used_slots(st.env.privates, st.used_private, st.env.privates.len()),
    ensures
        insts_view(r@) == epilogue(st),
{
    let mut out = public_slot_releases(&p.publics, &p.legacy);
    push_private_releases(slots, &mut out);
    proof {
        assert(p.publics@.len() == st.env.publics.len());
        assert(insts_view(out@) =~= epilogue(st));
    }
    out
}

/// The public relvars, each as its name stands for it.
fn current_publics(publics: &Vec<(PublicRelvarBinding, WritePolicy)>) -> (r: Vec<
    PublicRelvarBinding,
>)
    ensures
        relvars_view(r@) == Seq::new(
            publics@.len(),
            |i: int| current_public(publics_view(publics@), publics_view(publics@)[i].0.name),
        ),
{
    let ghost ps = publics_view(publics@);
    let mut r: Vec<PublicRelvarBinding> = Vec::new();
    let mut i: usize = 0;
    while i < publics.len()
        invariant
            i <= publics.len(),
            ps == publics_view(publics@),
            r.len() == i,
            forall|j: int|
                0 <= j < i ==> (#[trigger] r@[j])@ == current_public(ps, ps[j].0.name),
        decreases publics.len() - i,
    {
        proof {
            lemma_public_found(ps, i as int);
            assert(ps[i as int].0 == publics@[i as int].0@);
        }
        let mut at: usize = i;
        if let Some(found) = find_public(publics, publics[i].0.name.as_str()) {
            at = found;
        }
        let b = &publics[at].0;
        assert(ps[at as int].0 == publics@[at as int].0@);
        r.push(
            PublicRelvarBinding {
                name: b.name.clone(),
                heading_id: b.heading_id,
                table_name: b.table_name.clone(),
                columns: copy_pairs(&b.columns),
                keys: copy_name_lists(&b.keys),
            },
        );
        i += 1;
    }
    assert(relvars_view(r@) =~= Seq::new(
        publics@.len(),
        |i: int| current_public(ps, ps[i].0.name),
    ));
    r
}

/// The module that has been produced.
pub(crate) fn assemble(
    product: Product,
    name: String,
    db_name: Option<String>,
    db_path: Option<String>,
    Ghost(st): Ghost<State>,
) -> (r: Module)
    requires
        product.is_code_of(st),
    ensures
        r@ == module_of(
            st,
            name@,
            crate::ir::maybe_text(db_name),
            crate::ir::maybe_text(db_path),
        ),
{
    assert(st.env.privates.len() == product.privates@.len());
    let slots = slots_used(&product.privates, &product.used_private);
    let first = build_prologue(&product, &slots, Ghost(st));
    let last = build_epilogue(&product, &slots, Ghost(st));
    let public_relvars = current_publics(&product.publics);
    let mut functions = product.functions;
    finalize_main_prologue(&mut functions, first, last);
    let r = Module {
        program_name: name,
        functions,
        headings: product.headings,
        public_relvars,
        db_path_default: db_path,
        db_name,
        plans: product.plans,
        private_relvar_slots: slots,
    };
    proof {
        let want = module_of(
            st,
            name@,
            crate::ir::maybe_text(db_name),
            crate::ir::maybe_text(db_path),
        );
        assert(r@.public_relvars =~= want.public_relvars);
    }
    r
}

} // verus!
