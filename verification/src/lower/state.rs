//! What lowering knows and has produced so far, and the steps that change it.

use crate::ast::TemplateChunk;
use crate::cut::QueryView;
use crate::diag::DiagnosticView;
use crate::ir::{
    heading_index, interned, BlockId, BlockView, FunctionView, HeadingId, InstView, PlanView,
    ProcTypeView, RelvarView, TerminatorView, ValueId,
};
use crate::rel_analysis::add_new;
use crate::rel_expr::{RelExpr, RelView};
use crate::text::{decimal, same_text, Name};
use crate::types::HeadingView;
use vstd::prelude::*;

verus! {

/// Whether a public relvar can be written to.
#[derive(Copy, Clone, PartialEq, Eq, Debug, Structural)]
pub enum WritePolicy {
    ReadOnly,
    ReadWrite,
}

/// A statement that lowering needs.
#[derive(Debug, PartialEq, Eq)]
pub enum SqlRequest {
    /// The query for an expression.
    Select(RelExpr),
    /// The one statement that gives the target the value.
    Assign { target: RelExpr, value: RelExpr },
    /// The insertion of shipped rows that are not there yet.
    InsertTemplate { target: RelExpr },
    /// The insertion of a query's rows.
    ReplaceInsert { target: RelExpr, value: RelExpr },
    /// The removal of all rows.
    Truncate { target: RelExpr },
}

/// What a [`SqlRequest`] stands for.
pub enum RequestView {
    Select(RelView),
    Assign { target: RelView, value: RelView },
    InsertTemplate { target: RelView },
    ReplaceInsert { target: RelView, value: RelView },
    Truncate { target: RelView },
}

/// Why lowering stopped.
#[derive(Debug, PartialEq, Eq)]
pub enum Stop {
    /// A statement is needed that has not been supplied.
    Ask(SqlRequest),
    /// A form that has no lowering: one that no type-checked program has, or a
    /// cell or literal kind without machine code.
    NotLowered,
    /// An in-process operator would pull all rows of the named public relvar.
    FullRelvarPull(String),
    /// More values, blocks, headings, plans or helpers than their numbers tell
    /// apart.
    TooLarge,
}

/// What a [`Stop`] stands for.
pub enum StopView {
    Ask(RequestView),
    NotLowered,
    FullRelvarPull(Name),
    TooLarge,
}

/// What a [`TemplateChunk`] stands for.
pub enum ChunkView {
    Literal(Seq<u8>),
    Placeholder(Name),
}

impl SqlRequest {
    pub open spec fn view(&self) -> RequestView {
        match self {
            SqlRequest::Select(e) => RequestView::Select(e@),
            SqlRequest::Assign { target, value } => RequestView::Assign {
                target: target@,
                value: value@,
            },
            SqlRequest::InsertTemplate { target } => RequestView::InsertTemplate {
                target: target@,
            },
            SqlRequest::ReplaceInsert { target, value } => RequestView::ReplaceInsert {
                target: target@,
                value: value@,
            },
            SqlRequest::Truncate { target } => RequestView::Truncate { target: target@ },
        }
    }
}

impl Stop {
    pub open spec fn view(&self) -> StopView {
        match self {
            Stop::Ask(r) => StopView::Ask(r@),
            Stop::NotLowered => StopView::NotLowered,
            Stop::FullRelvarPull(name) => StopView::FullRelvarPull(name@),
            Stop::TooLarge => StopView::TooLarge,
        }
    }
}

impl TemplateChunk {
    pub open spec fn view(&self) -> ChunkView {
        match self {
            TemplateChunk::Literal(bytes) => ChunkView::Literal(bytes@),
            TemplateChunk::Placeholder(name) => ChunkView::Placeholder(name@),
        }
    }
}

/// What a list of template pieces stands for.
pub open spec fn chunks_view(s: Seq<TemplateChunk>) -> Seq<ChunkView> {
    Seq::new(s.len(), |i: int| s[i]@)
}

/// A copy of a list of bytes.
pub fn copy_bytes(v: &Vec<u8>) -> (r: Vec<u8>)
    ensures
        r@ == v@,
{
    let mut r: Vec<u8> = Vec::new();
    let mut i: usize = 0;
    while i < v.len()
        invariant
            i <= v.len(),
            r@ == v@.take(i as int),
        decreases v.len() - i,
    {
        r.push(v[i]);
        assert(v@.take(i as int + 1) =~= v@.take(i as int).push(v@[i as int]));
        i += 1;
    }
    assert(v@.take(i as int) =~= v@);
    r
}

/// A copy of a list of template pieces.
pub fn copy_chunks(v: &Vec<TemplateChunk>) -> (r: Vec<TemplateChunk>)
    ensures
        chunks_view(r@) == chunks_view(v@),
{
    let mut r: Vec<TemplateChunk> = Vec::new();
    let mut i: usize = 0;
    while i < v.len()
        invariant
            i <= v.len(),
            r.len() == i,
            forall|j: int| 0 <= j < i ==> (#[trigger] r@[j])@ == v@[j]@,
        decreases v.len() - i,
    {
        let c = match &v[i] {
            TemplateChunk::Literal(bytes) => TemplateChunk::Literal(copy_bytes(bytes)),
            TemplateChunk::Placeholder(name) => TemplateChunk::Placeholder(name.clone()),
        };
        r.push(c);
        i += 1;
    }
    assert(chunks_view(r@) =~= chunks_view(v@));
    r
}

/// The first place of a name; the length when it is not there.
pub open spec fn name_index(names: Seq<Name>, name: Name) -> nat
    decreases names.len(),
{
    if names.len() == 0 {
        0
    } else if names[0] == name {
        0
    } else {
        1 + name_index(names.drop_first(), name)
    }
}

/// The names of a list of named things.
pub open spec fn keys_of<V>(s: Seq<(Name, V)>) -> Seq<Name> {
    Seq::new(s.len(), |i: int| s[i].0)
}

/// The thing of that name.
pub open spec fn find_in<V>(s: Seq<(Name, V)>, name: Name) -> Option<V> {
    let i = name_index(keys_of(s), name);
    if i < s.len() {
        Some(s[i as int].1)
    } else {
        None
    }
}

/// The list with the thing of that name replaced, or added at the end.
pub open spec fn put_in<V>(s: Seq<(Name, V)>, name: Name, v: V) -> Seq<(Name, V)> {
    let i = name_index(keys_of(s), name);
    if i < s.len() {
        s.update(i as int, (name, v))
    } else {
        s.push((name, v))
    }
}

/// One more than the last layer that holds the name; zero when none does.
pub open spec fn last_layer(layers: Seq<Seq<Name>>, name: Name) -> nat
    decreases layers.len(),
{
    if layers.len() == 0 {
        0
    } else if layers.last().contains(name) {
        layers.len()
    } else {
        last_layer(layers.drop_last(), name)
    }
}

/// The names of a list of named things.
pub open spec fn names_in<V>(s: Seq<(String, V)>) -> Seq<Name> {
    Seq::new(s.len(), |i: int| s[i].0@)
}

pub proof fn lemma_name_index(names: Seq<Name>, name: Name)
    ensures
        name_index(names, name) <= names.len(),
        name_index(names, name) < names.len() <==> names.contains(name),
        name_index(names, name) < names.len() ==> names[name_index(names, name) as int] == name,
    decreases names.len(),
{
    if names.len() > 0 {
        let rest = names.drop_first();
        lemma_name_index(rest, name);
        if names[0] != name {
            if names.contains(name) {
                let i = choose|i: int| 0 <= i < names.len() && names[i] == name;
                assert(rest[i - 1] == name);
            }
            if rest.contains(name) {
                let i = choose|i: int| 0 <= i < rest.len() && rest[i] == name;
                assert(names[i + 1] == name);
            }
        }
    }
}

pub proof fn lemma_last_layer(layers: Seq<Seq<Name>>, name: Name, l: int)
    requires
        0 <= l <= layers.len(),
        forall|i: int| l <= i < layers.len() ==> !(#[trigger] layers[i]).contains(name),
        l > 0 ==> layers[l - 1].contains(name),
    ensures
        last_layer(layers, name) == l,
    decreases layers.len(),
{
    if layers.len() > l {
        let rest = layers.drop_last();
        assert forall|i: int| l <= i < rest.len() implies !(#[trigger] rest[i]).contains(name) by {
            assert(rest[i] == layers[i]);
        }
        assert(!layers[layers.len() - 1].contains(name));
        lemma_last_layer(rest, name, l);
    }
}

pub proof fn lemma_last_layer_bound(layers: Seq<Seq<Name>>, name: Name)
    ensures
        last_layer(layers, name) <= layers.len(),
        last_layer(layers, name) > 0 ==> layers[last_layer(layers, name) - 1].contains(name),
    decreases layers.len(),
{
    if layers.len() > 0 && !layers.last().contains(name) {
        lemma_last_layer_bound(layers.drop_last(), name);
    }
}

/// The first place of a name; the length when it is not there.
pub fn find_key<V>(v: &Vec<(String, V)>, name: &str) -> (r: usize)
    ensures
        r == name_index(names_in(v@), name@),
        r <= v.len(),
{
    let ghost names = names_in(v@);
    let mut i: usize = 0;
    assert(names.skip(0) =~= names);
    while i < v.len()
        invariant
            i <= v.len(),
            names == names_in(v@),
            name_index(names, name@) == i + name_index(names.skip(i as int), name@),
        decreases v.len() - i,
    {
        assert(names.skip(i as int)[0] == v@[i as int].0@);
        if same_text(v[i].0.as_str(), name) {
            return i;
        }
        assert(names.skip(i as int).drop_first() =~= names.skip(i as int + 1));
        i += 1;
    }
    i
}

/// What a binding stands for: the value and its type.
pub type Bound = (ValueId, ProcTypeView);

/// One layer of bindings.
pub struct ScopeView {
    pub locals: Seq<(Name, Bound)>,
    /// Names of relational expressions that are put in where they are used.
    pub aliases: Seq<(Name, RelView)>,
    /// Names of format templates.
    pub templates: Seq<(Name, Seq<ChunkView>)>,
    /// Variables without a value yet.
    pub pending: Seq<Name>,
}

/// The function that is being built.
pub struct FrameView {
    /// The types of the values, by number.
    pub types: Seq<ProcTypeView>,
    pub next_block: u32,
    /// The instructions of the current block so far.
    pub insts: Seq<InstView>,
    /// The finished blocks.
    pub blocks: Seq<BlockView>,
    pub current: BlockId,
    pub params: Seq<(ValueId, ProcTypeView)>,
    /// The layers of bindings, the innermost last.
    pub scopes: Seq<ScopeView>,
    /// Texts on the heap that the function owns a reference to.
    pub owned: Seq<ValueId>,
    /// Relations to release when the function ends.
    pub deferred: Seq<ValueId>,
    /// The values of the function's parameters.
    pub param_ids: Seq<ValueId>,
    /// For a tuple, the texts that were stored into it.
    pub cell_temps: Seq<(ValueId, Seq<ValueId>)>,
    /// The names bound around the function, when it is a helper function.
    pub outer: Option<Seq<Seq<Name>>>,
}

/// What stays the same during lowering.
pub struct EnvView {
    /// The public relvars, in declaration order.
    pub publics: Seq<(RelvarView, WritePolicy)>,
    /// The private relvars, in name order.
    pub privates: Seq<(Name, HeadingId)>,
    pub db_name: Option<Name>,
    /// Whether there is a plan that places public relvars.
    pub planned: bool,
    /// Whether the database evaluates relational expressions.
    pub pushes: bool,
    /// The program's operators: their parameters and return types.
    pub opers: Seq<(Name, (Seq<(Name, ProcTypeView)>, ProcTypeView))>,
    /// The statements supplied, in the order in which they are asked for;
    /// `None` for one that cannot be written.
    pub answers: Seq<Option<QueryView>>,
}

/// The state of lowering.
pub struct State {
    pub env: EnvView,
    pub frame: FrameView,
    pub functions: Seq<FunctionView>,
    /// The types of the values of each function, by number.
    pub value_types: Seq<Seq<ProcTypeView>>,
    /// The names of functions declared as defined elsewhere.
    pub seen: Seq<Name>,
    pub headings: Seq<HeadingView>,
    pub diagnostics: Seq<DiagnosticView>,
    /// Pushed expressions with their statements.
    pub relir: Seq<(RelView, Seq<char>)>,
    pub next_where: u32,
    pub next_extend: u32,
    pub plans: Seq<PlanView>,
    /// The key of each plan.
    pub plan_keys: Seq<u64>,
    /// Public relvars that are read in-process.
    pub legacy: Seq<Name>,
    /// Private relvars that are read or assigned.
    pub used_private: Seq<Name>,
    /// How many statements have been asked for.
    pub asked: nat,
    /// Why lowering stopped, when it did.
    pub stop: Option<StopView>,
}

/// A layer without bindings.
pub open spec fn empty_scope() -> ScopeView {
    ScopeView {
        locals: Seq::empty(),
        aliases: Seq::empty(),
        templates: Seq::empty(),
        pending: Seq::empty(),
    }
}

/// A function that nothing has been built of.
pub open spec fn empty_frame() -> FrameView {
    FrameView {
        types: Seq::empty(),
        next_block: 0,
        insts: Seq::empty(),
        blocks: Seq::empty(),
        current: BlockId(0),
        params: Seq::empty(),
        scopes: seq![empty_scope()],
        owned: Seq::empty(),
        deferred: Seq::empty(),
        param_ids: Seq::empty(),
        cell_temps: Seq::empty(),
        outer: None,
    }
}

/// The state before anything has been lowered.
pub open spec fn initial_state(
    db_name: Option<Name>,
    planned: bool,
    pushes: bool,
    answers: Seq<Option<QueryView>>,
) -> State {
    State {
        env: EnvView {
            publics: Seq::empty(),
            privates: Seq::empty(),
            db_name,
            planned,
            pushes,
            opers: Seq::empty(),
            answers,
        },
        frame: empty_frame(),
        functions: Seq::empty(),
        value_types: Seq::empty(),
        seen: Seq::empty(),
        headings: Seq::empty(),
        diagnostics: Seq::empty(),
        relir: Seq::empty(),
        next_where: 0,
        next_extend: 0,
        plans: Seq::empty(),
        plan_keys: Seq::empty(),
        legacy: Seq::empty(),
        used_private: Seq::empty(),
        asked: 0,
        stop: None,
    }
}

/// The names bound in each layer.
pub open spec fn local_layers(scopes: Seq<ScopeView>) -> Seq<Seq<Name>> {
    Seq::new(scopes.len(), |i: int| keys_of(scopes[i].locals))
}

/// The names of relational expressions in each layer.
pub open spec fn alias_layers(scopes: Seq<ScopeView>) -> Seq<Seq<Name>> {
    Seq::new(scopes.len(), |i: int| keys_of(scopes[i].aliases))
}

/// The names of format templates in each layer.
pub open spec fn template_layers(scopes: Seq<ScopeView>) -> Seq<Seq<Name>> {
    Seq::new(scopes.len(), |i: int| keys_of(scopes[i].templates))
}

/// The variables without a value in each layer.
pub open spec fn pending_layers(scopes: Seq<ScopeView>) -> Seq<Seq<Name>> {
    Seq::new(scopes.len(), |i: int| scopes[i].pending)
}

/// The list without the first occurrence of the name.
pub open spec fn name_removed(names: Seq<Name>, name: Name) -> Seq<Name> {
    let i = name_index(names, name);
    if i < names.len() {
        names.remove(i as int)
    } else {
        names
    }
}

/// The last public relvar of that name.
pub open spec fn last_public(
    publics: Seq<(RelvarView, WritePolicy)>,
    name: Name,
) -> Option<(RelvarView, WritePolicy)>
    decreases publics.len(),
{
    if publics.len() == 0 {
        None
    } else if publics.last().0.name == name {
        Some(publics.last())
    } else {
        last_public(publics.drop_last(), name)
    }
}

/// The first place of a value's texts; the length when there are none.
pub open spec fn temps_index(s: Seq<(ValueId, Seq<ValueId>)>, v: ValueId) -> nat
    decreases s.len(),
{
    if s.len() == 0 {
        0
    } else if s[0].0 == v {
        0
    } else {
        1 + temps_index(s.drop_first(), v)
    }
}

/// The first place of a plan's key; the length when it is not there.
pub open spec fn key_index(keys: Seq<u64>, key: u64) -> nat
    decreases keys.len(),
{
    if keys.len() == 0 {
        0
    } else if keys[0] == key {
        0
    } else {
        1 + key_index(keys.drop_first(), key)
    }
}

/// Whether a value of the type is always on the heap.
pub open spec fn is_heap(ty: ProcTypeView) -> bool {
    ty is Relation || ty is Sequence
}

impl State {
    /// Stops, unless lowering has stopped before.
    #[verifier::opaque]
    pub open spec fn halted(self, why: StopView) -> State {
        match self.stop {
            Some(_) => self,
            None => State { stop: Some(why), ..self },
        }
    }

    /// A new value of that type.
    #[verifier::opaque]
    pub open spec fn define(self, ty: ProcTypeView) -> (State, ValueId) {
        let n = self.frame.types.len();
        if n < u32::MAX {
            (
                State {
                    frame: FrameView { types: self.frame.types.push(ty), ..self.frame },
                    ..self
                },
                ValueId(n as u32),
            )
        } else {
            (self.halted(StopView::TooLarge), ValueId(0))
        }
    }

    /// A new block number.
    #[verifier::opaque]
    pub open spec fn fresh_block(self) -> (State, BlockId) {
        let n = self.frame.next_block;
        if n < u32::MAX {
            (
                State { frame: FrameView { next_block: (n + 1) as u32, ..self.frame }, ..self },
                BlockId(n),
            )
        } else {
            (self.halted(StopView::TooLarge), BlockId(0))
        }
    }

    /// One more instruction in the current block.
    #[verifier::opaque]
    pub open spec fn emit(self, inst: InstView) -> State {
        State { frame: FrameView { insts: self.frame.insts.push(inst), ..self.frame }, ..self }
    }

    /// The current block ended.
    #[verifier::opaque]
    pub open spec fn finish_block(self, terminator: TerminatorView) -> State {
        let block = BlockView {
            id: self.frame.current,
            params: self.frame.params,
            insts: self.frame.insts,
            terminator,
        };
        State {
            frame: FrameView {
                blocks: self.frame.blocks.push(block),
                params: Seq::empty(),
                insts: Seq::empty(),
                ..self.frame
            },
            ..self
        }
    }

    /// The block of that number made the current one.
    #[verifier::opaque]
    pub open spec fn start_block(self, id: BlockId, params: Seq<(ValueId, ProcTypeView)>) -> State {
        State { frame: FrameView { current: id, params, ..self.frame }, ..self }
    }

    /// A layer of bindings added.
    #[verifier::opaque]
    pub open spec fn push_scope(self) -> State {
        State {
            frame: FrameView { scopes: self.frame.scopes.push(empty_scope()), ..self.frame },
            ..self
        }
    }

    /// The innermost layer of bindings dropped.
    #[verifier::opaque]
    pub open spec fn pop_scope(self) -> State {
        if self.frame.scopes.len() == 0 {
            self
        } else {
            State {
                frame: FrameView { scopes: self.frame.scopes.drop_last(), ..self.frame },
                ..self
            }
        }
    }

    /// One layer of bindings replaced.
    pub open spec fn with_scope(self, i: int, scope: ScopeView) -> State {
        State {
            frame: FrameView { scopes: self.frame.scopes.update(i, scope), ..self.frame },
            ..self
        }
    }

    /// A name bound in the innermost layer.
    #[verifier::opaque]
    pub open spec fn bind(self, name: Name, v: ValueId, ty: ProcTypeView) -> State {
        let n = self.frame.scopes.len();
        if n == 0 {
            self
        } else {
            let top = self.frame.scopes[n - 1];
            self.with_scope(n - 1, ScopeView { locals: put_in(top.locals, name, (v, ty)), ..top })
        }
    }

    /// The innermost binding of a name pointed at another value.
    #[verifier::opaque]
    pub open spec fn rebind(self, name: Name, v: ValueId, ty: ProcTypeView) -> State {
        let l = last_layer(local_layers(self.frame.scopes), name);
        if l == 0 {
            self
        } else {
            let layer = self.frame.scopes[l - 1];
            self.with_scope(
                l - 1,
                ScopeView { locals: put_in(layer.locals, name, (v, ty)), ..layer },
            )
        }
    }

    /// A variable without a value, in the innermost layer.
    #[verifier::opaque]
    pub open spec fn add_pending(self, name: Name) -> State {
        let n = self.frame.scopes.len();
        if n == 0 {
            self
        } else {
            let top = self.frame.scopes[n - 1];
            self.with_scope(n - 1, ScopeView { pending: add_new(top.pending, name), ..top })
        }
    }

    /// A variable without a value bound, in the layer that declares it.
    #[verifier::opaque]
    pub open spec fn bind_pending(self, name: Name, v: ValueId, ty: ProcTypeView) -> State {
        let l = last_layer(pending_layers(self.frame.scopes), name);
        if l == 0 {
            self
        } else {
            let layer = self.frame.scopes[l - 1];
            self.with_scope(
                l - 1,
                ScopeView {
                    locals: put_in(layer.locals, name, (v, ty)),
                    pending: name_removed(layer.pending, name),
                    ..layer
                },
            )
        }
    }

    /// A relational expression named, in the innermost layer.
    #[verifier::opaque]
    pub open spec fn bind_alias(self, name: Name, rel: RelView) -> State {
        let n = self.frame.scopes.len();
        if n == 0 {
            self
        } else {
            let top = self.frame.scopes[n - 1];
            self.with_scope(n - 1, ScopeView { aliases: put_in(top.aliases, name, rel), ..top })
        }
    }

    /// A format template named, in the innermost layer.
    #[verifier::opaque]
    pub open spec fn bind_template(self, name: Name, chunks: Seq<ChunkView>) -> State {
        let n = self.frame.scopes.len();
        if n == 0 {
            self
        } else {
            let top = self.frame.scopes[n - 1];
            self.with_scope(
                n - 1,
                ScopeView { templates: put_in(top.templates, name, chunks), ..top },
            )
        }
    }

    /// The innermost binding of a name.
    #[verifier::opaque]
    pub open spec fn local(self, name: Name) -> Option<Bound> {
        let l = last_layer(local_layers(self.frame.scopes), name);
        if l == 0 {
            None
        } else {
            find_in(self.frame.scopes[l - 1].locals, name)
        }
    }

    /// The innermost relational expression of a name.
    #[verifier::opaque]
    pub open spec fn alias(self, name: Name) -> Option<RelView> {
        let l = last_layer(alias_layers(self.frame.scopes), name);
        if l == 0 {
            None
        } else {
            find_in(self.frame.scopes[l - 1].aliases, name)
        }
    }

    /// The innermost format template of a name.
    #[verifier::opaque]
    pub open spec fn template(self, name: Name) -> Option<Seq<ChunkView>> {
        let l = last_layer(template_layers(self.frame.scopes), name);
        if l == 0 {
            None
        } else {
            find_in(self.frame.scopes[l - 1].templates, name)
        }
    }

    /// Whether the name is that of a variable without a value.
    #[verifier::opaque]
    pub open spec fn is_pending(self, name: Name) -> bool {
        last_layer(pending_layers(self.frame.scopes), name) > 0
    }

    /// Whether a layer binds a name to the value.
    #[verifier::opaque]
    pub open spec fn is_bound(self, v: ValueId) -> bool {
        exists|i: int, j: int|
            0 <= i < self.frame.scopes.len() && 0 <= j < self.frame.scopes[i].locals.len()
                && (#[trigger] self.frame.scopes[i].locals[j]).1.0 == v
    }

    /// The bindings of the innermost layer, in the order they were made.
    #[verifier::opaque]
    pub open spec fn top_locals(self) -> Seq<Bound> {
        let n = self.frame.scopes.len();
        if n == 0 {
            Seq::empty()
        } else {
            let locals = self.frame.scopes[n - 1].locals;
            Seq::new(locals.len(), |i: int| locals[i].1)
        }
    }

    /// The type of a value.
    #[verifier::opaque]
    pub open spec fn type_of(self, v: ValueId) -> ProcTypeView {
        if v.0 < self.frame.types.len() {
            self.frame.types[v.0 as int]
        } else {
            ProcTypeView::Unit
        }
    }

    /// The heading of a number.
    #[verifier::opaque]
    pub open spec fn heading_at(self, id: HeadingId) -> HeadingView {
        if id.0 < self.headings.len() {
            self.headings[id.0 as int]
        } else {
            Seq::empty()
        }
    }

    /// The public relvar of that name.
    #[verifier::opaque]
    pub open spec fn public(self, name: Name) -> Option<(RelvarView, WritePolicy)> {
        last_public(self.env.publics, name)
    }

    /// The heading's number of the private relvar of that name.
    #[verifier::opaque]
    pub open spec fn private(self, name: Name) -> Option<HeadingId> {
        find_in(self.env.privates, name)
    }

    /// The program's operator of that name.
    #[verifier::opaque]
    pub open spec fn oper(self, name: Name) -> Option<(Seq<(Name, ProcTypeView)>, ProcTypeView)> {
        find_in(self.env.opers, name)
    }

    /// The database's name; empty when it has none.
    pub open spec fn database(self) -> Name {
        match self.env.db_name {
            Some(name) => name,
            None => Seq::empty(),
        }
    }

    /// The number of a heading, which is added unless it is there.
    #[verifier::opaque]
    pub open spec fn intern(self, h: HeadingView) -> (State, HeadingId) {
        let i = heading_index(self.headings, h);
        if i < self.headings.len() || i < u32::MAX {
            (State { headings: interned(self.headings, h), ..self }, HeadingId(i as u32))
        } else {
            (self.halted(StopView::TooLarge), HeadingId(0))
        }
    }

    /// A text on the heap that the function owns a reference to.
    #[verifier::opaque]
    pub open spec fn own(self, v: ValueId) -> State {
        State { frame: FrameView { owned: add_new(self.frame.owned, v), ..self.frame }, ..self }
    }

    /// Whether the function owns a reference to the text.
    #[verifier::opaque]
    pub open spec fn owns(self, v: ValueId) -> bool {
        self.frame.owned.contains(v)
    }

    /// Whether the value is that of a parameter.
    #[verifier::opaque]
    pub open spec fn is_param(self, v: ValueId) -> bool {
        self.frame.param_ids.contains(v)
    }

    /// A relation to release when the function ends.
    #[verifier::opaque]
    pub open spec fn defer(self, v: ValueId) -> State {
        State { frame: FrameView { deferred: self.frame.deferred.push(v), ..self.frame }, ..self }
    }

    /// The deferred relations released.
    #[verifier::opaque]
    pub open spec fn release_deferred(self) -> State {
        let vs = self.frame.deferred;
        State {
            frame: FrameView {
                insts: self.frame.insts + Seq::new(
                    vs.len(),
                    |i: int| InstView::Release { src: vs[i] },
                ),
                deferred: Seq::empty(),
                ..self.frame
            },
            ..self
        }
    }

    /// One more diagnostic.
    #[verifier::opaque]
    pub open spec fn diagnose(self, d: DiagnosticView) -> State {
        State { diagnostics: self.diagnostics.push(d), ..self }
    }

    /// A function defined elsewhere, declared unless it is already.
    #[verifier::opaque]
    pub open spec fn declare(
        self,
        name: Name,
        linkage: Name,
        params: Seq<(Name, ProcTypeView)>,
        return_type: ProcTypeView,
    ) -> State {
        if self.seen.contains(name) {
            self
        } else {
            State {
                seen: self.seen.push(name),
                value_types: self.value_types.push(Seq::empty()),
                functions: self.functions.push(
                    FunctionView {
                        name,
                        linkage_name: linkage,
                        params,
                        return_type,
                        blocks: Seq::empty(),
                    },
                ),
                ..self
            }
        }
    }

    /// A public relvar that is read in-process.
    #[verifier::opaque]
    pub open spec fn use_legacy(self, name: Name) -> State {
        State { legacy: add_new(self.legacy, name), ..self }
    }

    /// A private relvar that is read or assigned.
    #[verifier::opaque]
    pub open spec fn use_private(self, name: Name) -> State {
        State { used_private: add_new(self.used_private, name), ..self }
    }

    /// The texts that were stored into a tuple.
    #[verifier::opaque]
    pub open spec fn temps(self, v: ValueId) -> Seq<ValueId> {
        let i = temps_index(self.frame.cell_temps, v);
        if i < self.frame.cell_temps.len() {
            self.frame.cell_temps[i as int].1
        } else {
            Seq::empty()
        }
    }

    /// The texts that were stored into a tuple, noted.
    #[verifier::opaque]
    pub open spec fn set_temps(self, v: ValueId, temps: Seq<ValueId>) -> State {
        let all = self.frame.cell_temps;
        let i = temps_index(all, v);
        let cell_temps = if i < all.len() {
            all.update(i as int, (v, temps))
        } else {
            all.push((v, temps))
        };
        State { frame: FrameView { cell_temps, ..self.frame }, ..self }
    }

    /// The texts that were stored into a tuple, forgotten.
    #[verifier::opaque]
    pub open spec fn drop_temps(self, v: ValueId) -> State {
        let i = temps_index(self.frame.cell_temps, v);
        if i < self.frame.cell_temps.len() {
            let cell_temps = self.frame.cell_temps.remove(i as int);
            State { frame: FrameView { cell_temps, ..self.frame }, ..self }
        } else {
            self
        }
    }

    /// The name of the next predicate function.
    #[verifier::opaque]
    pub open spec fn where_name(self) -> (State, Name) {
        let name = "__coddl_where_"@ + decimal(self.next_where as nat);
        if self.next_where < u32::MAX {
            (State { next_where: (self.next_where + 1) as u32, ..self }, name)
        } else {
            (self.halted(StopView::TooLarge), name)
        }
    }

    /// The name of the next extension function.
    #[verifier::opaque]
    pub open spec fn extend_name(self) -> (State, Name) {
        let name = "__coddl_extend_"@ + decimal(self.next_extend as nat);
        if self.next_extend < u32::MAX {
            (State { next_extend: (self.next_extend + 1) as u32, ..self }, name)
        } else {
            (self.halted(StopView::TooLarge), name)
        }
    }

    /// The first block of a function begun.
    #[verifier::opaque]
    pub open spec fn begin_body(self) -> State {
        let (st, entry) = self.fresh_block();
        st.start_block(entry, Seq::empty())
    }

    /// A helper function begun: its own values, blocks, bindings and parameters,
    /// with the names bound around it kept for the capture test.
    #[verifier::opaque]
    pub open spec fn enter(self) -> State {
        State {
            frame: FrameView { outer: Some(local_layers(self.frame.scopes)), ..empty_frame() },
            ..self
        }
    }

    /// A helper function ended, and building taken up again where it was left.
    #[verifier::opaque]
    pub open spec fn leave(
        self,
        saved: FrameView,
        name: Name,
        params: Seq<(Name, ProcTypeView)>,
        return_type: ProcTypeView,
    ) -> State {
        State {
            functions: self.functions.push(
                FunctionView {
                    name,
                    linkage_name: name,
                    params,
                    return_type,
                    blocks: self.frame.blocks,
                },
            ),
            value_types: self.value_types.push(self.frame.types),
            frame: saved,
            ..self
        }
    }

    /// A function begun.
    #[verifier::opaque]
    pub open spec fn reset_function(self) -> State {
        State { frame: empty_frame(), ..self }
    }

    /// A value noted as that of a parameter.
    #[verifier::opaque]
    pub open spec fn add_param(self, v: ValueId) -> State {
        let param_ids = self.frame.param_ids.push(v);
        State { frame: FrameView { param_ids, ..self.frame }, ..self }
    }

    /// A parameter of the function that is being begun.
    #[verifier::opaque]
    pub open spec fn take_param(self, ty: ProcTypeView) -> (State, ValueId) {
        let (st, v) = self.define(ty);
        (st.add_param(v), v)
    }

    /// A public relvar added.
    #[verifier::opaque]
    pub open spec fn add_public(self, relvar: RelvarView, policy: WritePolicy) -> State {
        State {
            env: EnvView { publics: self.env.publics.push((relvar, policy)), ..self.env },
            ..self
        }
    }

    /// A private relvar added.
    #[verifier::opaque]
    pub open spec fn add_private(self, name: Name, id: HeadingId) -> State {
        State { env: EnvView { privates: self.env.privates.push((name, id)), ..self.env }, ..self }
    }

    /// An operator of the program added, in the place of an earlier one of the
    /// same name.
    #[verifier::opaque]
    pub open spec fn add_oper(
        self,
        name: Name,
        sig: (Seq<(Name, ProcTypeView)>, ProcTypeView),
    ) -> State {
        State { env: EnvView { opers: put_in(self.env.opers, name, sig), ..self.env }, ..self }
    }

    /// A function ended.
    #[verifier::opaque]
    pub open spec fn add_function(
        self,
        name: Name,
        params: Seq<(Name, ProcTypeView)>,
        return_type: ProcTypeView,
    ) -> State {
        State {
            functions: self.functions.push(
                FunctionView {
                    name,
                    linkage_name: name,
                    params,
                    return_type,
                    blocks: self.frame.blocks,
                },
            ),
            value_types: self.value_types.push(self.frame.types),
            frame: FrameView { blocks: Seq::empty(), current: BlockId(0), ..self.frame },
            ..self
        }
    }

    /// Whether the name is bound around the helper function.
    #[verifier::opaque]
    pub open spec fn is_captured(self, name: Name) -> bool {
        self.frame.outer matches Some(layers) && last_layer(layers, name) > 0
    }

    /// The statement for a request: the next one supplied.
    #[verifier::opaque]
    pub open spec fn ask(self, request: RequestView) -> (State, Option<QueryView>) {
        if self.asked < self.env.answers.len() {
            (State { asked: self.asked + 1, ..self }, self.env.answers[self.asked as int])
        } else {
            (self.halted(StopView::Ask(request)), None)
        }
    }

    /// The number of the plan of a statement, one for all statements of one
    /// text.
    #[verifier::opaque]
    pub open spec fn plan(self, query: QueryView, result: HeadingId) -> (State, u32) {
        let i = key_index(self.plan_keys, query.plan_key);
        if i < self.plan_keys.len() {
            (self, i as u32)
        } else if i < u32::MAX {
            (
                State {
                    plans: self.plans.push(
                        PlanView {
                            plan_id: i as u32,
                            db_name: self.database(),
                            sql: query.text,
                            param_count: query.param_count,
                            rel_params: Seq::empty(),
                            result_heading_id: result,
                            card1_alt: None,
                            dispatch_slot: 0,
                        },
                    ),
                    plan_keys: self.plan_keys.push(query.plan_key),
                    ..self
                },
                i as u32,
            )
        } else {
            (self.halted(StopView::TooLarge), 0)
        }
    }

    /// A pushed expression with its statement.
    #[verifier::opaque]
    pub open spec fn explain(self, rel: RelView, text: Seq<char>) -> State {
        State { relir: self.relir.push((rel, text)), ..self }
    }
}

} // verus!
