//! The executable state of lowering.

use crate::ast::TemplateChunk;
use crate::cut::{maybe_query, QueryView, SqlQuery};
use crate::diag::{diagnostics_view, Diagnostic};
use crate::ir::{
    blocks_view, find_heading, functions_view, headings_view, insts_view, params_view, plans_view,
    typed_values, BasicBlock, BlockId, Function, HeadingId, Inst, InstView, maybe_text, numbered,
    PlanEntry, ProcType, ProcTypeView, PublicRelvarBinding, RelvarView, Terminator, ValueId,
};
use crate::lower::state::{
    alias_layers, chunks_view, initial_state, copy_chunks, empty_frame, empty_scope, find_key,
    key_index, keys_of, last_layer, last_public, lemma_last_layer, lemma_name_index, local_layers,
    name_index, name_removed, names_in, pending_layers, put_in, temps_index, template_layers,
    Bound, ChunkView, EnvView, FrameView, ScopeView, SqlRequest, State, Stop, StopView,
    WritePolicy,
};
use crate::rel_expr::{RelExpr, RelView};
use crate::text::{decimal_text, has_name, names_of, same_text, Name};
use crate::types::Heading;
use vstd::prelude::*;

verus! {

/// A pushed relational expression with its statement.
#[derive(Debug)]
pub struct ExplainEntry {
    pub expr: RelExpr,
    pub sql: String,
}

/// An operator's parameters and return type.
#[derive(Debug)]
pub struct OperSig {
    pub params: Vec<(String, ProcType)>,
    pub return_type: ProcType,
}

impl OperSig {
    pub open spec fn view(&self) -> (Seq<(Name, ProcTypeView)>, ProcTypeView) {
        (params_view(self.params@), self.return_type@)
    }
}

struct Scope {
    locals: Vec<(String, (ValueId, ProcType))>,
    aliases: Vec<(String, RelExpr)>,
    templates: Vec<(String, Vec<TemplateChunk>)>,
    pending: Vec<String>,
}

/// The function that is being built.
pub struct Frame {
    types: Vec<ProcType>,
    next_block: u32,
    insts: Vec<Inst>,
    blocks: Vec<BasicBlock>,
    current: BlockId,
    params: Vec<(ValueId, ProcType)>,
    scopes: Vec<Scope>,
    owned: Vec<ValueId>,
    deferred: Vec<ValueId>,
    param_ids: Vec<ValueId>,
    cell_temps: Vec<(ValueId, Vec<ValueId>)>,
    outer: Option<Vec<Vec<String>>>,
}

/// What lowering knows and has produced so far. Pushed expressions are collected
/// when `COLLECT` holds.
pub struct Lowerer<const COLLECT: bool> {
    publics: Vec<(PublicRelvarBinding, WritePolicy)>,
    privates: Vec<(String, HeadingId)>,
    db_name: Option<String>,
    planned: bool,
    pushes: bool,
    opers: Vec<(String, OperSig)>,
    answers: Vec<Option<SqlQuery>>,
    frame: Frame,
    functions: Vec<Function>,
    value_types: Ghost<Seq<Seq<ProcTypeView>>>,
    seen: Vec<String>,
    headings: Vec<Heading>,
    diagnostics: Vec<Diagnostic>,
    /// The pushed expressions, when they are collected.
    relir: Vec<ExplainEntry>,
    /// What was pushed, when it is not collected.
    passed: Ghost<Seq<(RelView, Seq<char>)>>,
    next_where: u32,
    next_extend: u32,
    plans: Vec<PlanEntry>,
    plan_keys: Vec<u64>,
    legacy: Vec<String>,
    used_private: Vec<String>,
    asked: usize,
    stop: Option<Stop>,
}

spec fn locals_view(s: Seq<(String, (ValueId, ProcType))>) -> Seq<(Name, Bound)> {
    Seq::new(s.len(), |i: int| (s[i].0@, (s[i].1.0, s[i].1.1@)))
}

spec fn aliases_view(s: Seq<(String, RelExpr)>) -> Seq<(Name, RelView)> {
    Seq::new(s.len(), |i: int| (s[i].0@, s[i].1@))
}

spec fn templates_view(s: Seq<(String, Vec<TemplateChunk>)>) -> Seq<(Name, Seq<ChunkView>)> {
    Seq::new(s.len(), |i: int| (s[i].0@, chunks_view(s[i].1@)))
}

spec fn types_view(s: Seq<ProcType>) -> Seq<ProcTypeView> {
    Seq::new(s.len(), |i: int| s[i]@)
}

spec fn scopes_view(s: Seq<Scope>) -> Seq<ScopeView> {
    Seq::new(s.len(), |i: int| s[i].view())
}

/// What a list of public relvars with their policies stands for.
pub open spec fn publics_view(s: Seq<(PublicRelvarBinding, WritePolicy)>) -> Seq<(RelvarView, WritePolicy)> {
    Seq::new(s.len(), |i: int| (s[i].0@, s[i].1))
}

spec fn opers_view(s: Seq<(String, OperSig)>) -> Seq<
    (Name, (Seq<(Name, ProcTypeView)>, ProcTypeView)),
> {
    Seq::new(s.len(), |i: int| (s[i].0@, s[i].1@))
}

/// What a list of supplied statements stands for.
pub open spec fn answers_view(s: Seq<Option<SqlQuery>>) -> Seq<Option<QueryView>> {
    Seq::new(s.len(), |i: int| maybe_query(s[i]))
}

/// What a list of pushed expressions stands for.
pub open spec fn relir_view(s: Seq<ExplainEntry>) -> Seq<(RelView, Seq<char>)> {
    Seq::new(s.len(), |i: int| (s[i].expr@, s[i].sql@))
}

spec fn temps_view(s: Seq<(ValueId, Vec<ValueId>)>) -> Seq<(ValueId, Seq<ValueId>)> {
    Seq::new(s.len(), |i: int| (s[i].0, s[i].1@))
}

/// What an optional reason to stop stands for.
pub open spec fn maybe_stop(s: Option<Stop>) -> Option<StopView> {
    match s {
        Some(s) => Some(s@),
        None => None,
    }
}

spec fn maybe_layers(s: Option<Vec<Vec<String>>>) -> Option<Seq<Seq<Name>>> {
    match s {
        Some(v) => Some(Seq::new(v@.len(), |i: int| names_of(v@[i]@))),
        None => None,
    }
}

impl Scope {
    spec fn view(&self) -> ScopeView {
        ScopeView {
            locals: locals_view(self.locals@),
            aliases: aliases_view(self.aliases@),
            templates: templates_view(self.templates@),
            pending: names_of(self.pending@),
        }
    }

    fn new() -> (r: Scope)
        ensures
            r@ == empty_scope(),
    {
        let r = Scope {
            locals: Vec::new(),
            aliases: Vec::new(),
            templates: Vec::new(),
            pending: Vec::new(),
        };
        proof {
            assert(r@.locals =~= empty_scope().locals);
            assert(r@.aliases =~= empty_scope().aliases);
            assert(r@.templates =~= empty_scope().templates);
            assert(r@.pending =~= empty_scope().pending);
        }
        r
    }

    fn put_local(&mut self, name: &str, v: ValueId, ty: ProcType)
        ensures
            final(self)@ == (ScopeView {
                locals: put_in(old(self)@.locals, name@, (v, ty@)),
                ..old(self)@
            }),
    {
        let ghost was = self@;
        let i: usize = find_key(&self.locals, name);
        proof {
            assert(names_in(self.locals@) =~= keys_of(was.locals));
            lemma_name_index(keys_of(was.locals), name@);
        }
        if i < self.locals.len() {
            self.locals.set(i, (name.to_owned(), (v, ty)));
            assert(self@.locals =~= was.locals.update(i as int, (name@, (v, ty@))));
        } else {
            self.locals.push((name.to_owned(), (v, ty)));
            assert(self@.locals =~= was.locals.push((name@, (v, ty@))));
        }
    }

    fn put_alias(&mut self, name: &str, rel: RelExpr)
        ensures
            final(self)@ == (ScopeView {
                aliases: put_in(old(self)@.aliases, name@, rel@),
                ..old(self)@
            }),
    {
        let ghost was = self@;
        let i: usize = find_key(&self.aliases, name);
        proof {
            assert(names_in(self.aliases@) =~= keys_of(was.aliases));
        }
        if i < self.aliases.len() {
            self.aliases.set(i, (name.to_owned(), rel));
            assert(self@.aliases =~= was.aliases.update(i as int, (name@, rel@)));
        } else {
            self.aliases.push((name.to_owned(), rel));
            assert(self@.aliases =~= was.aliases.push((name@, rel@)));
        }
    }

    fn put_template(&mut self, name: &str, chunks: Vec<TemplateChunk>)
        ensures
            final(self)@ == (ScopeView {
                templates: put_in(old(self)@.templates, name@, chunks_view(chunks@)),
                ..old(self)@
            }),
    {
        let ghost was = self@;
        let i: usize = find_key(&self.templates, name);
        proof {
            assert(names_in(self.templates@) =~= keys_of(was.templates));
        }
        if i < self.templates.len() {
            self.templates.set(i, (name.to_owned(), chunks));
            assert(self@.templates =~= was.templates.update(
                i as int,
                (name@, chunks_view(chunks@)),
            ));
        } else {
            self.templates.push((name.to_owned(), chunks));
            assert(self@.templates =~= was.templates.push((name@, chunks_view(chunks@))));
        }
    }

    fn add_pending(&mut self, name: &str)
        ensures
            final(self)@ == (ScopeView {
                pending: crate::rel_analysis::add_new(old(self)@.pending, name@),
                ..old(self)@
            }),
    {
        let ghost was = self@;
        if !has_name(&self.pending, name) {
            self.pending.push(name.to_owned());
            assert(self@.pending =~= was.pending.push(name@));
        }
    }

    fn remove_pending(&mut self, name: &str)
        ensures
            final(self)@ == (ScopeView {
                pending: name_removed(old(self)@.pending, name@),
                ..old(self)@
            }),
    {
        let ghost was = self@;
        let i: usize = name_place(&self.pending, name);
        if i < self.pending.len() {
            self.pending.remove(i);
            assert(self@.pending =~= was.pending.remove(i as int));
        }
    }
}

/// The first place of a name; the length when it is not there.
fn name_place(v: &Vec<String>, name: &str) -> (r: usize)
    ensures
        r == name_index(names_of(v@), name@),
        r <= v.len(),
{
    let ghost names = names_of(v@);
    let mut i: usize = 0;
    assert(names.skip(0) =~= names);
    while i < v.len()
        invariant
            i <= v.len(),
            names == names_of(v@),
            name_index(names, name@) == i + name_index(names.skip(i as int), name@),
        decreases v.len() - i,
    {
        assert(names.skip(i as int)[0] == v@[i as int]@);
        if same_text(v[i].as_str(), name) {
            return i;
        }
        assert(names.skip(i as int).drop_first() =~= names.skip(i as int + 1));
        i += 1;
    }
    i
}

/// The first place of a plan's key; the length when it is not there.
fn key_place(keys: &Vec<u64>, key: u64) -> (r: usize)
    ensures
        r == key_index(keys@, key),
        r <= keys.len(),
{
    let mut i: usize = 0;
    assert(keys@.skip(0) =~= keys@);
    while i < keys.len()
        invariant
            i <= keys.len(),
            key_index(keys@, key) == i + key_index(keys@.skip(i as int), key),
        decreases keys.len() - i,
    {
        if keys[i] == key {
            return i;
        }
        assert(keys@.skip(i as int).drop_first() =~= keys@.skip(i as int + 1));
        i += 1;
    }
    i
}

fn has_value(v: &Vec<ValueId>, id: ValueId) -> (r: bool)
    ensures
        r == v@.contains(id),
{
    let mut i: usize = 0;
    while i < v.len()
        invariant
            i <= v.len(),
            forall|j: int| 0 <= j < i ==> v@[j] != id,
        decreases v.len() - i,
    {
        if v[i] == id {
            return true;
        }
        i += 1;
    }
    false
}

/// A copy of a list of values.
pub fn copy_values(v: &Vec<ValueId>) -> (r: Vec<ValueId>)
    ensures
        r@ == v@,
{
    let mut r: Vec<ValueId> = Vec::new();
    let mut i: usize = 0;
    while i < v.len()
        invariant
            i <= v.len(),
            r@ == v@.take(i as int),
        decreases v.len() - i,
    {
        r.push(v[i]);
        assert(v@.take(i as int + 1) =~= v@.take(i as int).push(v@[i as int]));
        i += 1;
    }
    assert(v@.take(i as int) =~= v@);
    r
}

/// A copy of a list of parameters.
pub fn copy_params(v: &Vec<(String, ProcType)>) -> (r: Vec<(String, ProcType)>)
    ensures
        params_view(r@) == params_view(v@),
{
    let mut r: Vec<(String, ProcType)> = Vec::new();
    let mut i: usize = 0;
    while i < v.len()
        invariant
            i <= v.len(),
            r.len() == i,
            forall|j: int|
                0 <= j < i ==> (#[trigger] r@[j]).0@ == v@[j].0@ && r@[j].1@ == v@[j].1@,
        decreases v.len() - i,
    {
        r.push((v[i].0.clone(), v[i].1.clone()));
        i += 1;
    }
    assert(params_view(r@) =~= params_view(v@));
    r
}

impl Frame {
    pub closed spec fn view(&self) -> FrameView {
        FrameView {
            types: types_view(self.types@),
            next_block: self.next_block,
            insts: insts_view(self.insts@),
            blocks: blocks_view(self.blocks@),
            current: self.current,
            params: typed_values(self.params@),
            scopes: scopes_view(self.scopes@),
            owned: self.owned@,
            deferred: self.deferred@,
            param_ids: self.param_ids@,
            cell_temps: temps_view(self.cell_temps@),
            outer: maybe_layers(self.outer),
        }
    }

    fn new() -> (r: Frame)
        ensures
            r@ == empty_frame(),
    {
        let mut scopes: Vec<Scope> = Vec::new();
        scopes.push(Scope::new());
        let r = Frame {
            types: Vec::new(),
            next_block: 0,
            insts: Vec::new(),
            blocks: Vec::new(),
            current: BlockId(0),
            params: Vec::new(),
            scopes,
            owned: Vec::new(),
            deferred: Vec::new(),
            param_ids: Vec::new(),
            cell_temps: Vec::new(),
            outer: None,
        };
        proof {
            assert(r@.types =~= empty_frame().types);
            assert(r@.insts =~= empty_frame().insts);
            assert(r@.blocks =~= empty_frame().blocks);
            assert(r@.params =~= empty_frame().params);
            assert(r@.scopes =~= empty_frame().scopes);
            assert(r@.cell_temps =~= empty_frame().cell_temps);
        }
        r
    }
}

/// What lowering has produced.
pub struct Product {
    pub publics: Vec<(PublicRelvarBinding, WritePolicy)>,
    pub privates: Vec<(String, HeadingId)>,
    pub functions: Vec<Function>,
    pub headings: Vec<Heading>,
    pub diagnostics: Vec<Diagnostic>,
    pub relir: Vec<ExplainEntry>,
    pub plans: Vec<PlanEntry>,
    pub legacy: Vec<String>,
    pub used_private: Vec<String>,
    pub stop: Option<Stop>,
}

impl Product {
    /// Whether it is what the state holds.
    pub open spec fn is_of(self, st: State) -> bool {
        &&& self.is_code_of(st)
        &&& diagnostics_view(self.diagnostics@) == st.diagnostics
        &&& maybe_stop(self.stop) == st.stop
    }

    /// Whether its code is what the state holds.
    pub open spec fn is_code_of(self, st: State) -> bool {
        &&& publics_view(self.publics@) == st.env.publics
        &&& numbered(self.privates@) == st.env.privates
        &&& functions_view(self.functions@) == st.functions
        &&& headings_view(self.headings@) == st.headings
        &&& plans_view(self.plans@) == st.plans
        &&& names_of(self.legacy@) == st.legacy
        &&& names_of(self.used_private@) == st.used_private
    }
}

impl<const COLLECT: bool> Lowerer<COLLECT> {
    /// The state before anything has been lowered.
    pub fn new(
        db_name: Option<String>,
        planned: bool,
        pushes: bool,
        answers: Vec<Option<SqlQuery>>,
    ) -> (r: Self)
        ensures
            r@ == initial_state(maybe_text(db_name), planned, pushes, answers_view(answers@)),
    {
        let r = Lowerer {
            publics: Vec::new(),
            privates: Vec::new(),
            db_name,
            planned,
            pushes,
            opers: Vec::new(),
            answers,
            frame: Frame::new(),
            functions: Vec::new(),
            value_types: Ghost(Seq::empty()),
            seen: Vec::new(),
            headings: Vec::new(),
            diagnostics: Vec::new(),
            relir: Vec::new(),
            passed: Ghost(Seq::empty()),
            next_where: 0,
            next_extend: 0,
            plans: Vec::new(),
            plan_keys: Vec::new(),
            legacy: Vec::new(),
            used_private: Vec::new(),
            asked: 0,
            stop: None,
        };
        proof {
            assert(r@.env.publics =~= Seq::empty());
            assert(r@.env.privates =~= Seq::empty());
            assert(r@.env.opers =~= Seq::empty());
            assert(r@.functions =~= Seq::empty());
            assert(r@.seen =~= Seq::empty());
            assert(r@.headings =~= Seq::empty());
            assert(r@.diagnostics =~= Seq::empty());
            assert(r@.relir =~= Seq::empty());
            assert(r@.plans =~= Seq::empty());
            assert(r@.legacy =~= Seq::empty());
            assert(r@.used_private =~= Seq::empty());
        }
        r
    }

    /// What has been produced.
    pub fn into_product(self) -> (r: Product)
        ensures
            r.is_of(self@),
            COLLECT ==> relir_view(r.relir@) == self@.relir,
    {
        Product {
            publics: self.publics,
            privates: self.privates,
            functions: self.functions,
            headings: self.headings,
            diagnostics: self.diagnostics,
            relir: self.relir,
            plans: self.plans,
            legacy: self.legacy,
            used_private: self.used_private,
            stop: self.stop,
        }
    }

    /// Adds a public relvar.
    pub fn add_public(&mut self, relvar: PublicRelvarBinding, policy: WritePolicy)
        ensures
            final(self)@ == old(self)@.add_public(relvar@, policy),
    {
        reveal(State::add_public);
        let ghost was = self@;
        self.publics.push((relvar, policy));
        assert(self@.env.publics =~= was.env.publics.push((relvar@, policy)));
    }

    /// Adds a private relvar.
    pub fn add_private(&mut self, name: &str, id: HeadingId)
        ensures
            final(self)@ == old(self)@.add_private(name@, id),
    {
        reveal(State::add_private);
        let ghost was = self@;
        self.privates.push((name.to_owned(), id));
        assert(self@.env.privates =~= was.env.privates.push((name@, id)));
    }

    /// Adds an operator of the program; a later one of the same name replaces
    /// it.
    pub fn add_oper(&mut self, name: &str, sig: OperSig)
        ensures
            final(self)@ == old(self)@.add_oper(name@, sig@),
    {
        reveal(State::add_oper);
        let ghost was = self@;
        let i: usize = find_key(&self.opers, name);
        assert(names_in(self.opers@) =~= keys_of(was.env.opers));
        if i < self.opers.len() {
            self.opers.set(i, (name.to_owned(), sig));
            assert(self@.env.opers =~= was.env.opers.update(i as int, (name@, sig@)));
        } else {
            self.opers.push((name.to_owned(), sig));
            assert(self@.env.opers =~= was.env.opers.push((name@, sig@)));
        }
    }

    pub closed spec fn view(&self) -> State {
        State {
            env: EnvView {
                publics: publics_view(self.publics@),
                privates: numbered(self.privates@),
                db_name: maybe_text(self.db_name),
                planned: self.planned,
                pushes: self.pushes,
                opers: opers_view(self.opers@),
                answers: answers_view(self.answers@),
            },
            frame: self.frame@,
            functions: functions_view(self.functions@),
            value_types: self.value_types@,
            seen: names_of(self.seen@),
            headings: headings_view(self.headings@),
            diagnostics: diagnostics_view(self.diagnostics@),
            relir: if COLLECT {
                relir_view(self.relir@)
            } else {
                self.passed@
            },
            next_where: self.next_where,
            next_extend: self.next_extend,
            plans: plans_view(self.plans@),
            plan_keys: self.plan_keys@,
            legacy: names_of(self.legacy@),
            used_private: names_of(self.used_private@),
            asked: self.asked as nat,
            stop: maybe_stop(self.stop),
        }
    }

    /// Stops, unless lowering has stopped before.
    pub fn halt(&mut self, why: Stop)
        ensures
            final(self)@ == old(self)@.halted(why@),
    {
        reveal(State::halted);
        if self.stop.is_none() {
            self.stop = Some(why);
        }
    }

    /// Stops at a form that has no lowering.
    pub fn not_lowered(&mut self)
        ensures
            final(self)@ == old(self)@.halted(StopView::NotLowered),
    {
        self.halt(Stop::NotLowered);
    }

    /// A new value of that type.
    pub fn define(&mut self, ty: ProcType) -> (v: ValueId)
        ensures
            (final(self)@, v) == old(self)@.define(ty@),
    {
        reveal(State::define);
        let ghost was = self@;
        let n: usize = self.frame.types.len();
        if n < 0xffff_ffff {
            self.frame.types.push(ty);
            assert(self@.frame.types =~= was.frame.types.push(ty@));
            ValueId(n as u32)
        } else {
            self.halt(Stop::TooLarge);
            ValueId(0)
        }
    }

    /// A new block number.
    pub fn fresh_block(&mut self) -> (b: BlockId)
        ensures
            (final(self)@, b) == old(self)@.fresh_block(),
    {
        reveal(State::fresh_block);
        let n: u32 = self.frame.next_block;
        if n < u32::MAX {
            self.frame.next_block = n + 1;
            BlockId(n)
        } else {
            self.halt(Stop::TooLarge);
            BlockId(0)
        }
    }

    /// One more instruction in the current block.
    pub fn emit(&mut self, inst: Inst)
        ensures
            final(self)@ == old(self)@.emit(inst@),
    {
        reveal(State::emit);
        let ghost was = self@;
        self.frame.insts.push(inst);
        assert(self@.frame.insts =~= was.frame.insts.push(inst@));
    }

    /// Ends the current block.
    pub fn finish_block(&mut self, terminator: Terminator)
        ensures
            final(self)@ == old(self)@.finish_block(terminator@),
    {
        reveal(State::finish_block);
        let ghost was = self@;
        let mut params: Vec<(ValueId, ProcType)> = Vec::new();
        std::mem::swap(&mut params, &mut self.frame.params);
        let mut insts: Vec<Inst> = Vec::new();
        std::mem::swap(&mut insts, &mut self.frame.insts);
        let block = BasicBlock { id: self.frame.current, params, insts, terminator };
        let ghost seen = block@;
        self.frame.blocks.push(block);
        proof {
            assert(self@.frame.blocks =~= was.frame.blocks.push(seen));
            assert(self@.frame.params =~= Seq::empty());
            assert(self@.frame.insts =~= Seq::empty());
        }
    }

    /// Makes the block of that number the current one.
    pub fn start_block(&mut self, id: BlockId, params: Vec<(ValueId, ProcType)>)
        ensures
            final(self)@ == old(self)@.start_block(id, typed_values(params@)),
    {
        reveal(State::start_block);
        self.frame.current = id;
        self.frame.params = params;
    }

    /// Makes the block of that number, without parameters, the current one.
    pub fn start_plain_block(&mut self, id: BlockId)
        ensures
            final(self)@ == old(self)@.start_block(id, Seq::empty()),
    {
        let params: Vec<(ValueId, ProcType)> = Vec::new();
        assert(typed_values(params@) =~= Seq::empty());
        self.start_block(id, params);
    }

    /// Begins the first block of a function.
    pub fn begin_body(&mut self)
        ensures
            final(self)@ == old(self)@.begin_body(),
    {
        reveal(State::begin_body);
        let entry = self.fresh_block();
        self.start_plain_block(entry);
    }

    /// Adds a layer of bindings.
    pub fn push_scope(&mut self)
        ensures
            final(self)@ == old(self)@.push_scope(),
    {
        reveal(State::push_scope);
        let ghost was = self@;
        self.frame.scopes.push(Scope::new());
        assert(self@.frame.scopes =~= was.frame.scopes.push(empty_scope()));
    }

    /// Drops the innermost layer of bindings.
    pub fn pop_scope(&mut self)
        ensures
            final(self)@ == old(self)@.pop_scope(),
    {
        reveal(State::pop_scope);
        let ghost was = self@;
        if self.frame.scopes.len() > 0 {
            self.frame.scopes.pop();
            assert(self@.frame.scopes =~= was.frame.scopes.drop_last());
        }
    }

    /// Binds a name in the innermost layer.
    pub fn bind(&mut self, name: &str, v: ValueId, ty: ProcType)
        ensures
            final(self)@ == old(self)@.bind(name@, v, ty@),
    {
        reveal(State::bind);
        let ghost was = self@;
        let n: usize = self.frame.scopes.len();
        if n > 0 {
            let mut top = Scope::new();
            std::mem::swap(&mut top, &mut self.frame.scopes[n - 1]);
            top.put_local(name, v, ty);
            let ghost seen = top@;
            self.frame.scopes.set(n - 1, top);
            assert(self@.frame.scopes =~= was.frame.scopes.update(n - 1, seen));
        }
    }

    /// Points the innermost binding of a name at another value.
    pub fn rebind(&mut self, name: &str, v: ValueId, ty: ProcType)
        ensures
            final(self)@ == old(self)@.rebind(name@, v, ty@),
    {
        reveal(State::rebind);
        let ghost was = self@;
        let l: usize = self.local_layer(name);
        if l > 0 {
            let mut layer = Scope::new();
            std::mem::swap(&mut layer, &mut self.frame.scopes[l - 1]);
            layer.put_local(name, v, ty);
            let ghost seen = layer@;
            self.frame.scopes.set(l - 1, layer);
            assert(self@.frame.scopes =~= was.frame.scopes.update(l - 1, seen));
        }
    }

    /// Notes a variable without a value in the innermost layer.
    pub fn add_pending(&mut self, name: &str)
        ensures
            final(self)@ == old(self)@.add_pending(name@),
    {
        reveal(State::add_pending);
        let ghost was = self@;
        let n: usize = self.frame.scopes.len();
        if n > 0 {
            let mut top = Scope::new();
            std::mem::swap(&mut top, &mut self.frame.scopes[n - 1]);
            top.add_pending(name);
            let ghost seen = top@;
            self.frame.scopes.set(n - 1, top);
            assert(self@.frame.scopes =~= was.frame.scopes.update(n - 1, seen));
        }
    }

    /// Binds a variable without a value, in the layer that declares it.
    pub fn bind_pending(&mut self, name: &str, v: ValueId, ty: ProcType)
        ensures
            final(self)@ == old(self)@.bind_pending(name@, v, ty@),
    {
        reveal(State::bind_pending);
        let ghost was = self@;
        let l: usize = self.pending_layer(name);
        if l > 0 {
            let mut layer = Scope::new();
            std::mem::swap(&mut layer, &mut self.frame.scopes[l - 1]);
            layer.put_local(name, v, ty);
            layer.remove_pending(name);
            let ghost seen = layer@;
            self.frame.scopes.set(l - 1, layer);
            assert(self@.frame.scopes =~= was.frame.scopes.update(l - 1, seen));
        }
    }

    /// Names a relational expression in the innermost layer.
    pub fn bind_alias(&mut self, name: &str, rel: RelExpr)
        ensures
            final(self)@ == old(self)@.bind_alias(name@, rel@),
    {
        reveal(State::bind_alias);
        let ghost was = self@;
        let n: usize = self.frame.scopes.len();
        if n > 0 {
            let mut top = Scope::new();
            std::mem::swap(&mut top, &mut self.frame.scopes[n - 1]);
            top.put_alias(name, rel);
            let ghost seen = top@;
            self.frame.scopes.set(n - 1, top);
            assert(self@.frame.scopes =~= was.frame.scopes.update(n - 1, seen));
        }
    }

    /// Names a format template in the innermost layer.
    pub fn bind_template(&mut self, name: &str, chunks: &Vec<TemplateChunk>)
        ensures
            final(self)@ == old(self)@.bind_template(name@, chunks_view(chunks@)),
    {
        reveal(State::bind_template);
        let ghost was = self@;
        let n: usize = self.frame.scopes.len();
        if n > 0 {
            let mut top = Scope::new();
            std::mem::swap(&mut top, &mut self.frame.scopes[n - 1]);
            top.put_template(name, copy_chunks(chunks));
            let ghost seen = top@;
            self.frame.scopes.set(n - 1, top);
            assert(self@.frame.scopes =~= was.frame.scopes.update(n - 1, seen));
        }
    }

    fn local_layer(&self, name: &str) -> (l: usize)
        ensures
            l == last_layer(local_layers(self@.frame.scopes), name@),
            l <= self.frame.scopes.len(),
    {
        let ghost layers = local_layers(self@.frame.scopes);
        let mut l: usize = self.frame.scopes.len();
        while l > 0
            invariant
                l <= self.frame.scopes.len(),
                layers == local_layers(self@.frame.scopes),
                forall|i: int| l <= i < layers.len() ==> !(#[trigger] layers[i]).contains(name@),
            decreases l,
        {
            let i: usize = find_key(&self.frame.scopes[l - 1].locals, name);
            proof {
                let s = self.frame.scopes@[l - 1];
                assert(names_in(s.locals@) =~= layers[l - 1]);
                lemma_name_index(layers[l - 1], name@);
            }
            if i < self.frame.scopes[l - 1].locals.len() {
                proof {
                    lemma_last_layer(layers, name@, l as int);
                }
                return l;
            }
            l -= 1;
        }
        proof {
            lemma_last_layer(layers, name@, 0);
        }
        0
    }

    fn alias_layer(&self, name: &str) -> (l: usize)
        ensures
            l == last_layer(alias_layers(self@.frame.scopes), name@),
            l <= self.frame.scopes.len(),
    {
        let ghost layers = alias_layers(self@.frame.scopes);
        let mut l: usize = self.frame.scopes.len();
        while l > 0
            invariant
                l <= self.frame.scopes.len(),
                layers == alias_layers(self@.frame.scopes),
                forall|i: int| l <= i < layers.len() ==> !(#[trigger] layers[i]).contains(name@),
            decreases l,
        {
            let i: usize = find_key(&self.frame.scopes[l - 1].aliases, name);
            proof {
                let s = self.frame.scopes@[l - 1];
                assert(names_in(s.aliases@) =~= layers[l - 1]);
                lemma_name_index(layers[l - 1], name@);
            }
            if i < self.frame.scopes[l - 1].aliases.len() {
                proof {
                    lemma_last_layer(layers, name@, l as int);
                }
                return l;
            }
            l -= 1;
        }
        proof {
            lemma_last_layer(layers, name@, 0);
        }
        0
    }

    fn template_layer(&self, name: &str) -> (l: usize)
        ensures
            l == last_layer(template_layers(self@.frame.scopes), name@),
            l <= self.frame.scopes.len(),
    {
        let ghost layers = template_layers(self@.frame.scopes);
        let mut l: usize = self.frame.scopes.len();
        while l > 0
            invariant
                l <= self.frame.scopes.len(),
                layers == template_layers(self@.frame.scopes),
                forall|i: int| l <= i < layers.len() ==> !(#[trigger] layers[i]).contains(name@),
            decreases l,
        {
            let i: usize = find_key(&self.frame.scopes[l - 1].templates, name);
            proof {
                let s = self.frame.scopes@[l - 1];
                assert(names_in(s.templates@) =~= layers[l - 1]);
                lemma_name_index(layers[l - 1], name@);
            }
            if i < self.frame.scopes[l - 1].templates.len() {
                proof {
                    lemma_last_layer(layers, name@, l as int);
                }
                return l;
            }
            l -= 1;
        }
        proof {
            lemma_last_layer(layers, name@, 0);
        }
        0
    }

    fn pending_layer(&self, name: &str) -> (l: usize)
        ensures
            l == last_layer(pending_layers(self@.frame.scopes), name@),
            l <= self.frame.scopes.len(),
    {
        let ghost layers = pending_layers(self@.frame.scopes);
        let mut l: usize = self.frame.scopes.len();
        while l > 0
            invariant
                l <= self.frame.scopes.len(),
                layers == pending_layers(self@.frame.scopes),
                forall|i: int| l <= i < layers.len() ==> !(#[trigger] layers[i]).contains(name@),
            decreases l,
        {
            assert(names_of(self.frame.scopes@[l - 1].pending@) =~= layers[l - 1]);
            if has_name(&self.frame.scopes[l - 1].pending, name) {
                proof {
                    lemma_last_layer(layers, name@, l as int);
                }
                return l;
            }
            l -= 1;
        }
        proof {
            lemma_last_layer(layers, name@, 0);
        }
        0
    }

    /// The innermost binding of a name.
    pub fn local(&self, name: &str) -> (r: Option<(ValueId, ProcType)>)
        ensures
            maybe_bound(r) == self@.local(name@),
    {
        reveal(State::local);
        let l: usize = self.local_layer(name);
        if l == 0 {
            return None;
        }
        let locals = &self.frame.scopes[l - 1].locals;
        let i: usize = find_key(locals, name);
        assert(names_in(locals@) =~= keys_of(self@.frame.scopes[l - 1].locals));
        if i < locals.len() {
            Some((locals[i].1.0, locals[i].1.1.clone()))
        } else {
            None
        }
    }

    /// The innermost relational expression of a name.
    pub fn alias(&self, name: &str) -> (r: Option<RelExpr>)
        ensures
            maybe_rel(r) == self@.alias(name@),
    {
        reveal(State::alias);
        let l: usize = self.alias_layer(name);
        if l == 0 {
            return None;
        }
        let aliases = &self.frame.scopes[l - 1].aliases;
        let i: usize = find_key(aliases, name);
        assert(names_in(aliases@) =~= keys_of(self@.frame.scopes[l - 1].aliases));
        if i < aliases.len() {
            Some(aliases[i].1.clone())
        } else {
            None
        }
    }

    /// The innermost format template of a name.
    pub fn template(&self, name: &str) -> (r: Option<Vec<TemplateChunk>>)
        ensures
            maybe_chunks(r) == self@.template(name@),
    {
        reveal(State::template);
        let l: usize = self.template_layer(name);
        if l == 0 {
            return None;
        }
        let templates = &self.frame.scopes[l - 1].templates;
        let i: usize = find_key(templates, name);
        assert(names_in(templates@) =~= keys_of(self@.frame.scopes[l - 1].templates));
        if i < templates.len() {
            Some(copy_chunks(&templates[i].1))
        } else {
            None
        }
    }

    /// Whether the name is that of a variable without a value.
    pub fn is_pending(&self, name: &str) -> (r: bool)
        ensures
            r == self@.is_pending(name@),
    {
        reveal(State::is_pending);
        self.pending_layer(name) > 0
    }

    /// Whether a layer binds a name to the value.
    pub fn is_bound(&self, v: ValueId) -> (r: bool)
        ensures
            r == self@.is_bound(v),
    {
        reveal(State::is_bound);
        let mut i: usize = 0;
        while i < self.frame.scopes.len()
            invariant
                i <= self.frame.scopes.len(),
                forall|k: int, j: int|
                    0 <= k < i && 0 <= j < self@.frame.scopes[k].locals.len() ==> (
                    #[trigger] self@.frame.scopes[k].locals[j]).1.0 != v,
            decreases self.frame.scopes.len() - i,
        {
            let locals = &self.frame.scopes[i].locals;
            let mut j: usize = 0;
            while j < locals.len()
                invariant
                    i < self.frame.scopes.len(),
                    j <= locals.len(),
                    locals == &self.frame.scopes@[i as int].locals,
                    forall|m: int|
                        0 <= m < j ==> (#[trigger] self@.frame.scopes[i as int].locals[m]).1.0 != v,
                decreases locals.len() - j,
            {
                if locals[j].1.0 == v {
                    reveal(State::is_bound);
                    assert(self@.frame.scopes[i as int].locals[j as int].1.0 == v);
                    return true;
                }
                j += 1;
            }
            i += 1;
        }
        false
    }

    /// The bindings of the innermost layer, in the order they were made.
    pub fn top_locals(&self) -> (r: Vec<(ValueId, ProcType)>)
        ensures
            typed_values(r@) == self@.top_locals(),
    {
        reveal(State::top_locals);
        let n: usize = self.frame.scopes.len();
        let mut r: Vec<(ValueId, ProcType)> = Vec::new();
        if n == 0 {
            assert(typed_values(r@) =~= Seq::empty());
            return r;
        }
        let locals = &self.frame.scopes[n - 1].locals;
        let mut i: usize = 0;
        while i < locals.len()
            invariant
                i <= locals.len(),
                r.len() == i,
                forall|j: int|
                    0 <= j < i ==> (#[trigger] r@[j]).0 == locals@[j].1.0 && r@[j].1@
                        == locals@[j].1.1@,
            decreases locals.len() - i,
        {
            r.push((locals[i].1.0, locals[i].1.1.clone()));
            i += 1;
        }
        assert(typed_values(r@) =~= self@.top_locals());
        r
    }

    /// The type of a value.
    pub fn type_of(&self, v: ValueId) -> (r: ProcType)
        ensures
            r@ == self@.type_of(v),
    {
        reveal(State::type_of);
        if (v.0 as usize) < self.frame.types.len() {
            self.frame.types[v.0 as usize].clone()
        } else {
            ProcType::Unit
        }
    }

    /// The heading of a number.
    pub fn heading_at(&self, id: HeadingId) -> (r: Heading)
        ensures
            r@ == self@.heading_at(id),
    {
        reveal(State::heading_at);
        if (id.0 as usize) < self.headings.len() {
            self.headings[id.0 as usize].clone()
        } else {
            Heading::empty()
        }
    }

    /// The public relvar of that name.
    pub fn public(&self, name: &str) -> (r: Option<(&PublicRelvarBinding, WritePolicy)>)
        ensures
            self@.public(name@) == match r {
                Some(p) => Some((p.0@, p.1)),
                None => None::<(RelvarView, WritePolicy)>,
            },
    {
        reveal(State::public);
        let ghost publics = self@.env.publics;
        let mut n: usize = self.publics.len();
        assert(publics.take(n as int) =~= publics);
        while n > 0
            invariant
                n <= self.publics.len(),
                publics == publics_view(self.publics@),
                last_public(publics, name@) == last_public(publics.take(n as int), name@),
            decreases n,
        {
            proof {
                let t = publics.take(n as int);
                assert(t.last() == publics[n - 1]);
                assert(t.drop_last() =~= publics.take(n - 1));
            }
            if same_text(self.publics[n - 1].0.name.as_str(), name) {
                reveal(State::public);
                return Some((&self.publics[n - 1].0, self.publics[n - 1].1));
            }
            n -= 1;
        }
        None
    }

    /// The heading's number of the private relvar of that name.
    pub fn private(&self, name: &str) -> (r: Option<HeadingId>)
        ensures
            r == self@.private(name@),
    {
        reveal(State::private);
        let i: usize = find_key(&self.privates, name);
        assert(names_in(self.privates@) =~= keys_of(self@.env.privates));
        if i < self.privates.len() {
            Some(self.privates[i].1)
        } else {
            None
        }
    }

    /// The program's operator of that name.
    pub fn oper(&self, name: &str) -> (r: Option<OperSig>)
        ensures
            self@.oper(name@) == match r {
                Some(sig) => Some(sig@),
                None => None::<(Seq<(Name, ProcTypeView)>, ProcTypeView)>,
            },
    {
        reveal(State::oper);
        let i: usize = find_key(&self.opers, name);
        assert(names_in(self.opers@) =~= keys_of(self@.env.opers));
        if i < self.opers.len() {
            Some(
                OperSig {
                    params: copy_params(&self.opers[i].1.params),
                    return_type: self.opers[i].1.return_type.clone(),
                },
            )
        } else {
            None
        }
    }

    /// The database's name; empty when it has none.
    pub fn database(&self) -> (r: String)
        ensures
            r@ == self@.database(),
    {
        match &self.db_name {
            Some(name) => name.clone(),
            None => {
                let r = String::new();
                assert(r@ =~= Seq::empty());
                r
            },
        }
    }

    /// Whether there is a plan that places public relvars.
    pub fn planned(&self) -> (r: bool)
        ensures
            r == self@.env.planned,
    {
        self.planned
    }

    /// Whether the database evaluates relational expressions.
    pub fn pushes(&self) -> (r: bool)
        ensures
            r == self@.env.pushes,
    {
        self.pushes
    }

    /// The number of a heading, which is added unless it is there.
    pub fn intern(&mut self, h: &Heading) -> (id: HeadingId)
        ensures
            (final(self)@, id) == old(self)@.intern(h@),
    {
        reveal(State::intern);
        let ghost was = self@;
        let i: usize = find_heading(&self.headings, h);
        if i < self.headings.len() {
            HeadingId(i as u32)
        } else if i < 0xffff_ffff {
            self.headings.push(h.clone());
            assert(self@.headings =~= was.headings.push(h@));
            HeadingId(i as u32)
        } else {
            self.halt(Stop::TooLarge);
            HeadingId(0)
        }
    }

    /// Marks a text on the heap as one that the function owns a reference to.
    pub fn own(&mut self, v: ValueId)
        ensures
            final(self)@ == old(self)@.own(v),
    {
        reveal(State::own);
        if !has_value(&self.frame.owned, v) {
            self.frame.owned.push(v);
        }
    }

    /// Whether the function owns a reference to the text.
    pub fn owns(&self, v: ValueId) -> (r: bool)
        ensures
            r == self@.owns(v),
    {
        reveal(State::owns);
        has_value(&self.frame.owned, v)
    }

    /// Whether the value is that of a parameter.
    pub fn is_param(&self, v: ValueId) -> (r: bool)
        ensures
            r == self@.is_param(v),
    {
        reveal(State::is_param);
        has_value(&self.frame.param_ids, v)
    }

    /// Notes a relation to release when the function ends.
    pub fn defer(&mut self, v: ValueId)
        ensures
            final(self)@ == old(self)@.defer(v),
    {
        reveal(State::defer);
        self.frame.deferred.push(v);
    }

    /// Releases the deferred relations.
    pub fn release_deferred(&mut self)
        ensures
            final(self)@ == old(self)@.release_deferred(),
    {
        reveal(State::release_deferred);
        let ghost was = self@;
        let mut vs: Vec<ValueId> = Vec::new();
        std::mem::swap(&mut vs, &mut self.frame.deferred);
        let ghost mid = self@;
        let mut i: usize = 0;
        while i < vs.len()
            invariant
                i <= vs.len(),
                self@ == (State {
                    frame: FrameView {
                        insts: mid.frame.insts + Seq::new(
                            i as nat,
                            |j: int| InstView::Release { src: vs@[j] },
                        ),
                        ..mid.frame
                    },
                    ..mid
                }),
            decreases vs.len() - i,
        {
            let ghost before = self@;
            self.frame.insts.push(Inst::Release { src: vs[i] });
            assert(self@.frame.insts =~= before.frame.insts.push(
                InstView::Release { src: vs@[i as int] },
            ));
            assert(self@.frame.insts =~= mid.frame.insts + Seq::new(
                (i + 1) as nat,
                |j: int| InstView::Release { src: vs@[j] },
            ));
            i += 1;
        }
        assert(self@.frame.insts =~= was.frame.insts + Seq::new(
            was.frame.deferred.len(),
            |j: int| InstView::Release { src: was.frame.deferred[j] },
        ));
    }

    /// Adds a diagnostic.
    pub fn diagnose(&mut self, d: Diagnostic)
        ensures
            final(self)@ == old(self)@.diagnose(d@),
    {
        reveal(State::diagnose);
        let ghost was = self@;
        self.diagnostics.push(d);
        assert(self@.diagnostics =~= was.diagnostics.push(d@));
    }

    /// Declares a function defined elsewhere, unless it is declared already.
    pub fn declare(
        &mut self,
        name: &str,
        linkage: &str,
        params: Vec<(String, ProcType)>,
        return_type: ProcType,
    )
        ensures
            final(self)@ == old(self)@.declare(
                name@,
                linkage@,
                params_view(params@),
                return_type@,
            ),
    {
        reveal(State::declare);
        let ghost was = self@;
        if !has_name(&self.seen, name) {
            self.seen.push(name.to_owned());
            let f = Function {
                name: name.to_owned(),
                linkage_name: linkage.to_owned(),
                params,
                return_type,
                blocks: Vec::new(),
            };
            assert(f@.blocks =~= Seq::empty());
            let ghost seen = f@;
            self.functions.push(f);
            self.value_types = Ghost(was.value_types.push(Seq::empty()));
            proof {
                assert(self@.seen =~= was.seen.push(name@));
                assert(self@.functions =~= was.functions.push(seen));
            }
        }
    }

    /// Notes a public relvar that is read in-process.
    pub fn use_legacy(&mut self, name: &str)
        ensures
            final(self)@ == old(self)@.use_legacy(name@),
    {
        reveal(State::use_legacy);
        let ghost was = self@;
        if !has_name(&self.legacy, name) {
            self.legacy.push(name.to_owned());
            assert(self@.legacy =~= was.legacy.push(name@));
        }
    }

    /// Notes a private relvar that is read or assigned.
    pub fn use_private(&mut self, name: &str)
        ensures
            final(self)@ == old(self)@.use_private(name@),
    {
        reveal(State::use_private);
        let ghost was = self@;
        if !has_name(&self.used_private, name) {
            self.used_private.push(name.to_owned());
            assert(self@.used_private =~= was.used_private.push(name@));
        }
    }

    fn temps_place(&self, v: ValueId) -> (r: usize)
        ensures
            r == temps_index(self@.frame.cell_temps, v),
            r <= self.frame.cell_temps.len(),
    {
        let ghost s = self@.frame.cell_temps;
        let mut i: usize = 0;
        assert(s.skip(0) =~= s);
        while i < self.frame.cell_temps.len()
            invariant
                i <= self.frame.cell_temps.len(),
                s == self@.frame.cell_temps,
                temps_index(s, v) == i + temps_index(s.skip(i as int), v),
            decreases self.frame.cell_temps.len() - i,
        {
            assert(s.skip(i as int)[0].0 == self.frame.cell_temps@[i as int].0);
            if self.frame.cell_temps[i].0 == v {
                return i;
            }
            assert(s.skip(i as int).drop_first() =~= s.skip(i as int + 1));
            i += 1;
        }
        i
    }

    /// The texts that were stored into a tuple.
    pub fn temps(&self, v: ValueId) -> (r: Vec<ValueId>)
        ensures
            r@ == self@.temps(v),
    {
        reveal(State::temps);
        let i: usize = self.temps_place(v);
        if i < self.frame.cell_temps.len() {
            copy_values(&self.frame.cell_temps[i].1)
        } else {
            Vec::new()
        }
    }

    /// Notes the texts that were stored into a tuple.
    pub fn set_temps(&mut self, v: ValueId, temps: Vec<ValueId>)
        ensures
            final(self)@ == old(self)@.set_temps(v, temps@),
    {
        reveal(State::set_temps);
        let ghost was = self@;
        let i: usize = self.temps_place(v);
        if i < self.frame.cell_temps.len() {
            self.frame.cell_temps.set(i, (v, temps));
            assert(self@.frame.cell_temps =~= was.frame.cell_temps.update(i as int, (v, temps@)));
        } else {
            self.frame.cell_temps.push((v, temps));
            assert(self@.frame.cell_temps =~= was.frame.cell_temps.push((v, temps@)));
        }
    }

    /// Forgets the texts that were stored into a tuple.
    pub fn drop_temps(&mut self, v: ValueId)
        ensures
            final(self)@ == old(self)@.drop_temps(v),
    {
        reveal(State::drop_temps);
        let ghost was = self@;
        let i: usize = self.temps_place(v);
        if i < self.frame.cell_temps.len() {
            self.frame.cell_temps.remove(i);
            assert(self@.frame.cell_temps =~= was.frame.cell_temps.remove(i as int));
        }
    }

    /// The name of the next predicate function.
    pub fn where_name(&mut self) -> (name: String)
        ensures
            (final(self)@, name@) == old(self)@.where_name(),
    {
        reveal(State::where_name);
        let mut name = "__coddl_where_".to_owned();
        name.append(decimal_text(self.next_where as u64).as_str());
        if self.next_where < u32::MAX {
            self.next_where = self.next_where + 1;
        } else {
            self.halt(Stop::TooLarge);
        }
        name
    }

    /// The name of the next extension function.
    pub fn extend_name(&mut self) -> (name: String)
        ensures
            (final(self)@, name@) == old(self)@.extend_name(),
    {
        reveal(State::extend_name);
        let mut name = "__coddl_extend_".to_owned();
        name.append(decimal_text(self.next_extend as u64).as_str());
        if self.next_extend < u32::MAX {
            self.next_extend = self.next_extend + 1;
        } else {
            self.halt(Stop::TooLarge);
        }
        name
    }

    fn layer_names(&self) -> (r: Vec<Vec<String>>)
        ensures
            maybe_layers(Some(r)) == Some(local_layers(self@.frame.scopes)),
    {
        let mut r: Vec<Vec<String>> = Vec::new();
        let mut i: usize = 0;
        while i < self.frame.scopes.len()
            invariant
                i <= self.frame.scopes.len(),
                r.len() == i,
                forall|k: int|
                    0 <= k < i ==> names_of((#[trigger] r@[k])@) == local_layers(
                        self@.frame.scopes,
                    )[k],
            decreases self.frame.scopes.len() - i,
        {
            let locals = &self.frame.scopes[i].locals;
            let mut names: Vec<String> = Vec::new();
            let mut j: usize = 0;
            while j < locals.len()
                invariant
                    j <= locals.len(),
                    names.len() == j,
                    forall|k: int| 0 <= k < j ==> (#[trigger] names@[k])@ == locals@[k].0@,
                decreases locals.len() - j,
            {
                names.push(locals[j].0.clone());
                j += 1;
            }
            assert(names_of(names@) =~= local_layers(self@.frame.scopes)[i as int]);
            r.push(names);
            i += 1;
        }
        assert(maybe_layers(Some(r))->0 =~= local_layers(self@.frame.scopes));
        r
    }

    /// Begins a helper function.
    pub fn enter(&mut self) -> (saved: Frame)
        ensures
            final(self)@ == old(self)@.enter(),
            saved@ == old(self)@.frame,
    {
        reveal(State::enter);
        let outer = self.layer_names();
        let mut saved = Frame::new();
        std::mem::swap(&mut saved, &mut self.frame);
        self.frame.outer = Some(outer);
        saved
    }

    /// Ends a helper function.
    pub fn leave(
        &mut self,
        saved: Frame,
        name: &str,
        params: Vec<(String, ProcType)>,
        return_type: ProcType,
    )
        ensures
            final(self)@ == old(self)@.leave(saved@, name@, params_view(params@), return_type@),
    {
        reveal(State::leave);
        let ghost was = self@;
        let mut blocks: Vec<BasicBlock> = Vec::new();
        std::mem::swap(&mut blocks, &mut self.frame.blocks);
        let f = Function {
            name: name.to_owned(),
            linkage_name: name.to_owned(),
            params,
            return_type,
            blocks,
        };
        let ghost seen = f@;
        self.functions.push(f);
        self.value_types = Ghost(was.value_types.push(was.frame.types));
        assert(self@.functions =~= was.functions.push(seen));
        self.frame = saved;
    }

    /// Begins a function.
    pub fn reset_function(&mut self)
        ensures
            final(self)@ == old(self)@.reset_function(),
    {
        reveal(State::reset_function);
        self.frame = Frame::new();
    }

    /// A parameter of the function that is being begun.
    pub fn take_param(&mut self, ty: ProcType) -> (v: ValueId)
        ensures
            (final(self)@, v) == old(self)@.take_param(ty@),
    {
        reveal(State::take_param);
        reveal(State::add_param);
        let v = self.define(ty);
        self.frame.param_ids.push(v);
        v
    }

    /// Ends a function.
    pub fn add_function(
        &mut self,
        name: &str,
        params: Vec<(String, ProcType)>,
        return_type: ProcType,
    )
        ensures
            final(self)@ == old(self)@.add_function(name@, params_view(params@), return_type@),
    {
        reveal(State::add_function);
        let ghost was = self@;
        let mut blocks: Vec<BasicBlock> = Vec::new();
        std::mem::swap(&mut blocks, &mut self.frame.blocks);
        let f = Function {
            name: name.to_owned(),
            linkage_name: name.to_owned(),
            params,
            return_type,
            blocks,
        };
        let ghost seen = f@;
        self.functions.push(f);
        self.value_types = Ghost(was.value_types.push(was.frame.types));
        self.frame.current = BlockId(0);
        assert(self@.functions =~= was.functions.push(seen));
        assert(self@.frame.blocks =~= Seq::empty());
    }

    /// Whether the name is bound around the helper function.
    pub fn is_captured(&self, name: &str) -> (r: bool)
        ensures
            r == self@.is_captured(name@),
    {
        reveal(State::is_captured);
        match &self.frame.outer {
            None => false,
            Some(layers) => {
                let ghost ls = self@.frame.outer->0;
                let mut l: usize = layers.len();
                while l > 0
                    invariant
                        l <= layers.len(),
                        self@.frame.outer == Some(ls),
                        ls.len() == layers.len(),
                        forall|i: int|
                            0 <= i < ls.len() ==> #[trigger] ls[i] == names_of(layers@[i]@),
                        forall|i: int| l <= i < ls.len() ==> !(#[trigger] ls[i]).contains(name@),
                    decreases l,
                {
                    assert(ls[l - 1] == names_of(layers@[l - 1]@));
                    if has_name(&layers[l - 1], name) {
                        reveal(State::is_captured);
                        proof {
                            lemma_last_layer(ls, name@, l as int);
                        }
                        return true;
                    }
                    l -= 1;
                }
                proof {
                    lemma_last_layer(ls, name@, 0);
                }
                false
            },
        }
    }

    /// The statement for a request: the next one supplied.
    pub fn ask(&mut self, request: SqlRequest) -> (r: Option<SqlQuery>)
        ensures
            (final(self)@, maybe_query(r)) == old(self)@.ask(request@),
    {
        reveal(State::ask);
        let n: usize = self.asked;
        if n < self.answers.len() {
            self.asked = n + 1;
            match &self.answers[n] {
                Some(q) => Some(q.clone()),
                None => None,
            }
        } else {
            self.halt(Stop::Ask(request));
            None
        }
    }

    /// The number of the plan of a statement.
    pub fn plan(&mut self, query: &SqlQuery, result: HeadingId) -> (id: u32)
        ensures
            (final(self)@, id) == old(self)@.plan(query@, result),
    {
        reveal(State::plan);
        let ghost was = self@;
        let n: usize = self.plan_keys.len();
        let i: usize = key_place(&self.plan_keys, query.plan_key);
        if i < n {
            i as u32
        } else if i < 0xffff_ffff {
            let db_name = self.database();
            let entry = PlanEntry {
                plan_id: i as u32,
                db_name,
                sql: query.text.clone(),
                param_count: query.param_count,
                rel_params: Vec::new(),
                result_heading_id: result,
                card1_alt: None,
                dispatch_slot: 0,
            };
            let ghost seen = entry@;
            self.plans.push(entry);
            self.plan_keys.push(query.plan_key);
            assert(self@.plans =~= was.plans.push(seen));
            i as u32
        } else {
            self.halt(Stop::TooLarge);
            0
        }
    }

    /// Collects a pushed expression with its statement, when they are collected.
    pub fn explain(&mut self, rel: &RelExpr, text: &str)
        ensures
            final(self)@ == old(self)@.explain(rel@, text@),
    {
        reveal(State::explain);
        let ghost was = self@;
        if COLLECT {
            self.relir.push(ExplainEntry { expr: rel.clone(), sql: text.to_owned() });
            assert(self@.relir =~= was.relir.push((rel@, text@)));
        } else {
            self.passed = Ghost(self.passed@.push((rel@, text@)));
        }
    }
}

/// What an optional binding stands for.
pub open spec fn maybe_bound(b: Option<(ValueId, ProcType)>) -> Option<Bound> {
    match b {
        Some(b) => Some((b.0, b.1@)),
        None => None,
    }
}

/// What an optional relational expression stands for.
pub open spec fn maybe_rel(e: Option<RelExpr>) -> Option<RelView> {
    match e {
        Some(e) => Some(e@),
        None => None,
    }
}

/// What an optional format template stands for.
pub open spec fn maybe_chunks(c: Option<Vec<TemplateChunk>>) -> Option<Seq<ChunkView>> {
    match c {
        Some(c) => Some(chunks_view(c@)),
        None => None,
    }
}

} // verus!
