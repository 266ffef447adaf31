//! What is known of each module: its text, what it imports, and how far it has come.

use crate::handle_map::HandleMap;
use crate::qjs::imports::{parse_import_specifiers, request_views, requests};
use crate::qjs::resolve::{ModuleSources, Resolutions};
use crate::qjs::source_phase::{record_views, records_from, replaced_from, rewrite_source_phase};
use crate::qjs::top_level_await::{awaits, has_top_level_await};
use crate::status::{MaybeBool, ModuleStatus};
use crate::table::{inserted, lemma_position, lemma_position_is, position, value_of};
use crate::text::{
    begins, chars_of, contains_text, copy_without_nul, is_text, optional, starts_with, texts,
    without_nul,
};
use vstd::prelude::*;
use vstd::utf8::encode_utf8;

verus! {

/// What is known of a module.
pub struct ModuleState {
    pub status: ModuleStatus,
    /// The engine's definition of the module, once there is one.
    pub module_def: Option<usize>,
    /// The module as the engine compiled it ahead of time. It can be run once.
    pub bytecode: Option<usize>,
    /// What the module imports: specifiers, with the `type` attribute of those that have one.
    pub import_specifiers: Vec<(String, Option<String>)>,
    /// The source-phase imports that were taken out of the text: a number and a specifier each.
    pub source_imports: Vec<(u64, String)>,
    /// The embedder supplies the exports.
    pub synthetic: bool,
    /// The text awaits at its top level.
    pub is_async: bool,
    pub source_text: String,
    pub source_name: String,
}

/// The status of `s`.
pub fn clone_status(s: &ModuleStatus) -> (r: ModuleStatus)
    ensures
        r == *s,
{
    *s
}

/// The engine's definitions by the names of their modules.
pub struct DefCache {
    entries: Vec<(String, usize)>,
}

/// The entries as plain values.
pub open spec fn def_entries(v: Seq<(String, usize)>) -> Seq<(Seq<char>, usize)> {
    Seq::new(v.len(), |i: int| (v[i].0@, v[i].1))
}

impl View for DefCache {
    type V = Seq<(Seq<char>, usize)>;

    closed spec fn view(&self) -> Seq<(Seq<char>, usize)> {
        def_entries(self.entries@)
    }
}

impl DefCache {
    /// Nothing is known.
    pub fn new() -> (r: DefCache)
        ensures
            r@ == Seq::<(Seq<char>, usize)>::empty(),
    {
        let r = DefCache { entries: Vec::new() };
        assert(r@ =~= Seq::empty());
        r
    }

    fn find(&self, name: &str) -> (r: Option<usize>)
        ensures
            match r {
                Some(i) => position(self@, name@) == Some(i as int) && i < self.entries@.len(),
                None => position(self@, name@) is None,
            },
    {
        let mut i: usize = 0;
        while i < self.entries.len()
            invariant
                i <= self.entries.len(),
                forall|j: int| 0 <= j < i ==> (#[trigger] self@[j]).0 != name@,
            decreases self.entries.len() - i,
        {
            let known = chars_of(&self.entries[i].0);
            if is_text(&known, name) {
                proof {
                    lemma_position_is(self@, name@, i as int);
                }
                return Some(i);
            }
            i += 1;
        }
        proof {
            lemma_position(self@, name@);
        }
        None
    }

    /// The definition of the module `name`.
    pub fn get(&self, name: &str) -> (r: Option<usize>)
        ensures
            r == value_of(self@, name@),
    {
        match self.find(name) {
            Some(i) => Some(self.entries[i].1),
            None => None,
        }
    }

    /// Lets the module `name` have this definition.
    pub fn insert(&mut self, name: &str, def: usize)
        ensures
            final(self)@ == inserted(old(self)@, name@, def),
    {
        match self.find(name) {
            Some(i) => {
                self.entries[i].1 = def;
                proof {
                    lemma_position(old(self)@, name@);
                }
                assert(self@ =~= inserted(old(self)@, name@, def));
            },
            None => {
                self.entries.push((name.to_owned(), def));
                assert(self@ =~= inserted(old(self)@, name@, def));
            },
        }
    }
}

/// Everything that is known of modules.
pub struct Modules {
    /// The modules by handle.
    pub states: HandleMap<ModuleState>,
    /// The texts by name.
    pub sources: ModuleSources,
    /// What specifiers were resolved to.
    pub resolutions: Resolutions,
    /// The engine's definitions by name.
    pub defs: DefCache,
    /// The source-phase imports that wait for their modules, with the importing module.
    pub pending: Vec<(usize, Vec<(u64, String)>)>,
    /// The number of the next source-phase import.
    pub next_source_id: u64,
    /// Some module has been evaluated.
    pub after_first_eval: bool,
    /// `import.meta` is to be filled.
    pub import_meta_enabled: bool,
    /// Jobs are being run.
    pub draining: bool,
    /// The definitions of synthetic modules by handle.
    pub synthetic_defs: HandleMap<usize>,
    /// The exports that synthetic modules were given, by definition, until the engine asks for them.
    pub synthetic_exports: HandleMap<Vec<(String, usize)>>,
}

/// Nothing but the states of modules differs.
pub open spec fn only_states_differ(a: Modules, b: Modules) -> bool {
    b == (Modules { states: b.states, ..a })
}

/// The state with another status.
pub open spec fn with_status(s: ModuleState, status: ModuleStatus) -> ModuleState {
    ModuleState { status, ..s }
}

/// The modules with every one of them evaluated.
pub open spec fn all_evaluated(m: Map<usize, ModuleState>) -> Map<usize, ModuleState> {
    m.map_values(|s: ModuleState| with_status(s, ModuleStatus::Evaluated))
}

impl Modules {
    /// No module is known.
    pub fn new() -> (r: Modules)
        ensures
            r.states@ == Map::<usize, ModuleState>::empty(),
            r.sources@.len() == 0,
            r.resolutions@.len() == 0,
            r.defs@.len() == 0,
            r.pending@.len() == 0,
            r.next_source_id == 1,
            !r.after_first_eval,
            !r.import_meta_enabled,
            !r.draining,
            r.synthetic_defs@ == Map::<usize, usize>::empty(),
            r.synthetic_exports@ == Map::<usize, Vec<(String, usize)>>::empty(),
    {
        Modules {
            states: HandleMap::new(),
            sources: ModuleSources::new(),
            resolutions: Resolutions::new(),
            defs: DefCache::new(),
            pending: Vec::new(),
            next_source_id: 1,
            after_first_eval: false,
            import_meta_enabled: false,
            draining: false,
            synthetic_defs: HandleMap::new(),
            synthetic_exports: HandleMap::new(),
        }
    }

    /// The state of the module `this`, to be read or changed.
    pub fn with_module_state(&mut self, this: usize) -> (r: Option<&mut ModuleState>)
        ensures
            match r {
                Some(st) => {
                    &&& old(self).states@.dom().contains(this)
                    &&& *st == old(self).states@[this]
                    &&& final(self).states@ == old(self).states@.insert(this, *final(st))
                    &&& only_states_differ(*old(self), *final(self))
                },
                None => !old(self).states@.dom().contains(this) && *final(self) == *old(self),
            },
    {
        self.states.get_mut(this)
    }

    /// Lets the module `this` have the state `st`.
    pub fn record_module_state(&mut self, this: usize, st: ModuleState)
        ensures
            final(self).states@ == old(self).states@.insert(this, st),
            only_states_differ(*old(self), *final(self)),
    {
        self.states.insert(this, st);
    }

    /// The status of a module; one that is not known has failed.
    pub open spec fn status_of(&self, this: usize) -> ModuleStatus {
        if self.states@.dom().contains(this) {
            self.states@[this].status
        } else {
            ModuleStatus::Errored
        }
    }

    /// The status of the module `this`.
    pub fn get_status(&self, this: usize) -> (r: ModuleStatus)
        ensures
            r == self.status_of(this),
    {
        match self.states.get(this) {
            Some(st) => clone_status(&st.status),
            None => ModuleStatus::Errored,
        }
    }

    /// Whether the text of the module `this` awaits at its top level.
    pub fn is_graph_async(&self, this: usize) -> (r: bool)
        ensures
            r == (self.states@.dom().contains(this) && self.states@[this].is_async),
    {
        match self.states.get(this) {
            Some(st) => st.is_async,
            None => false,
        }
    }

    /// Whether the embedder supplies the exports of the module `this`.
    pub fn is_synthetic_module(&self, this: usize) -> (r: bool)
        ensures
            r == (self.states@.dom().contains(this) && self.states@[this].synthetic),
    {
        match self.states.get(this) {
            Some(st) => st.synthetic,
            None => false,
        }
    }

    /// Lets every module be evaluated: the engine runs the modules that a module imports along with it.
    pub fn mark_all_modules_evaluated(&mut self)
        ensures
            final(self).states@ == all_evaluated(old(self).states@),
            final(self).after_first_eval,
            *final(self) == (Modules {
                states: final(self).states,
                after_first_eval: true,
                ..*old(self)
            }),
    {
        let ghost before = self.states@;
        let keys = self.states.keys();
        let mut i: usize = 0;
        while i < keys.len()
            invariant
                i <= keys.len(),
                self.states@.dom() =~= before.dom(),
                forall|k: usize| keys@.contains(k) <==> before.dom().contains(k),
                forall|k: usize| #[trigger]
                    before.dom().contains(k) ==> self.states@[k] == before[k] || self.states@[k]
                        == with_status(before[k], ModuleStatus::Evaluated),
                forall|j: int|
                    0 <= j < i ==> self.states@[#[trigger] keys@[j]] == with_status(
                        before[keys@[j]],
                        ModuleStatus::Evaluated,
                    ),
                only_states_differ(*old(self), *self),
            decreases keys.len() - i,
        {
            let k = keys[i];
            assert(keys@.contains(k));
            if let Some(st) = self.states.get_mut(k) {
                st.status = ModuleStatus::Evaluated;
            }
            i += 1;
        }
        assert forall|k: usize| before.dom().contains(k) implies self.states@[k] == with_status(
            before[k],
            ModuleStatus::Evaluated,
        ) by {
            assert(keys@.contains(k));
            let j = choose|j: int| 0 <= j < keys@.len() && keys@[j] == k;
            assert(self.states@[keys@[j]] == with_status(before[keys@[j]], ModuleStatus::Evaluated));
        }
        assert(self.states@ =~= all_evaluated(before));
        self.after_first_eval = true;
    }

    /// Whether some module has been evaluated.
    pub fn after_first_eval(&self) -> (r: bool)
        ensures
            r == self.after_first_eval,
    {
        self.after_first_eval
    }

    /// From here on `import.meta` is filled.
    pub fn set_import_meta_callback(&mut self)
        ensures
            *final(self) == (Modules { import_meta_enabled: true, ..*old(self) }),
    {
        self.import_meta_enabled = true;
    }

    /// Begins to run the jobs of a runtime, if there is one. The result is false where jobs are being run
    /// already: whoever runs them will come to the new ones too, so that no job runs inside another.
    pub fn begin_drain(&mut self, has_runtime: bool) -> (r: bool)
        ensures
            r == (has_runtime && !old(self).draining),
            *final(self) == (Modules {
                draining: old(self).draining || has_runtime,
                ..*old(self)
            }),
    {
        if !has_runtime || self.draining {
            return false;
        }
        self.draining = true;
        true
    }

    /// Ends what `begin_drain` began.
    pub fn end_drain(&mut self)
        ensures
            *final(self) == (Modules { draining: false, ..*old(self) }),
    {
        self.draining = false;
    }
}

/// Whether a run of jobs goes on, by what the engine answered: the number of jobs that ran, or a negative
/// number where one threw.
pub fn drain_goes_on(answer: i32) -> (r: bool)
    ensures
        r == (answer > 0),
{
    answer > 0
}

/// What `import.meta` gets.
pub struct ImportMeta {
    /// `url`, unless the name holds a NUL.
    pub url: Option<String>,
    /// `main`
    pub main: bool,
    /// What a WebAssembly module needs to be instantiated.
    pub wasm: bool,
}

/// A name that is an address.
pub open spec fn is_url(name: Seq<char>) -> bool {
    begins(name, "file://"@) || begins(name, "http://"@) || begins(name, "https://"@)
}

/// `s` ends with `p`.
pub open spec fn ends(s: Seq<char>, p: Seq<char>) -> bool {
    s.len() >= p.len() && s.subrange(s.len() - p.len(), s.len() as int) == p
}

fn ends_with(s: &[char], p: &str) -> (r: bool)
    ensures
        r == ends(s@, p@),
{
    let w = chars_of(p);
    if s.len() < w.len() {
        return false;
    }
    let t = crate::text::tail(s, s.len() - w.len());
    is_text(t, p)
}

/// What `import.meta` of the module `name` gets, as plain values: the address, `main`, and whether it is a
/// WebAssembly module. Nothing where it is not to be filled, or where the engine has no definition of the
/// module, or where the name is no address.
pub open spec fn meta_of(enabled: bool, def: Option<usize>, name: Seq<char>) -> Option<
    (Option<Seq<char>>, bool, bool),
> {
    if enabled && def is Some && is_url(name) {
        Some((without_nul(name), false, ends(name, ".wasm"@)))
    } else {
        None
    }
}

/// The plain values.
pub open spec fn meta_view(m: Option<ImportMeta>) -> Option<(Option<Seq<char>>, bool, bool)> {
    match m {
        Some(m) => Some((optional(m.url), m.main, m.wasm)),
        None => None,
    }
}

/// What `import.meta` of the module `name` gets.
pub fn import_meta(enabled: bool, def: Option<usize>, name: &str) -> (r: Option<ImportMeta>)
    ensures
        meta_view(r) == meta_of(enabled, def, name@),
{
    if !enabled || def.is_none() {
        return None;
    }
    let c = chars_of(name);
    if !(starts_with(&c, "file://") || starts_with(&c, "http://") || starts_with(&c, "https://")) {
        return None;
    }
    let url = copy_without_nul(name);
    Some(ImportMeta { url, main: false, wasm: ends_with(&c, ".wasm") })
}

/// The number that identifies a module.
pub open spec fn identity_hash(this: usize) -> i32 {
    (this as i32) ^ 0x4d4f44i32
}

/// The number that identifies the module `this`.
pub fn get_identity_hash(this: usize) -> (r: i32)
    ensures
        r == identity_hash(this),
{
    (this as i32) ^ 0x4d4f44i32
}

/// The text and the source-phase imports that the text `src` is rewritten to, if the next number is
/// `first`.
pub open spec fn phase_rewritten(
    src: Seq<char>,
    first: nat,
    text: Seq<char>,
    imports: Seq<(nat, Seq<char>)>,
) -> bool {
    if contains_text(src, "import source"@) {
        &&& encode_utf8(text) == replaced_from(encode_utf8(src), 0, first)
        &&& imports == records_from(encode_utf8(src), 0, first)
    } else {
        &&& text == src
        &&& imports.len() == 0
    }
}

/// The name of a module that was given none.
pub open spec fn module_name(specifier: Seq<char>) -> Seq<char> {
    if specifier.len() == 0 {
        "<module>"@
    } else {
        specifier
    }
}

/// The name of a module.
pub fn name_or_default(specifier: &str) -> (r: String)
    ensures
        r@ == module_name(specifier@),
{
    if specifier.is_empty() {
        "<module>".to_owned()
    } else {
        specifier.to_owned()
    }
}

/// A copy of a list of source-phase imports.
pub fn copy_records(v: &Vec<(u64, String)>) -> (r: Vec<(u64, String)>)
    ensures
        record_views(r@) == record_views(v@),
{
    let mut r: Vec<(u64, String)> = Vec::new();
    let mut i: usize = 0;
    while i < v.len()
        invariant
            i <= v.len(),
            record_views(r@) =~= record_views(v@).take(i as int),
        decreases v.len() - i,
    {
        let ghost done = record_views(r@);
        r.push((v[i].0, v[i].1.clone()));
        assert(record_views(r@) =~= done.push(record_views(v@)[i as int]));
        i += 1;
    }
    assert(record_views(v@).take(i as int) =~= record_views(v@));
    r
}

/// The source-phase imports that wait, as plain values.
pub open spec fn pending_views(v: Seq<(usize, Vec<(u64, String)>)>) -> Seq<
    (usize, Seq<(nat, Seq<char>)>),
> {
    Seq::new(v.len(), |i: int| (v[i].0, record_views(v[i].1@)))
}

impl Modules {
    /// Takes up the module `this` with the text `raw_text` and the name `specifier`. Nothing is compiled
    /// yet: the engine would ask for the modules that it imports, and they are not known before the
    /// embedder has read the requests of this one.
    pub fn compile_module(&mut self, this: usize, raw_text: &str, specifier: &str)
        requires
            old(self).next_source_id + encode_utf8(raw_text@).len() <= u64::MAX,
        ensures
            final(self).states@ == old(self).states@.insert(this, final(self).states@[this]),
            ({
                let st = final(self).states@[this];
                &&& st.status == ModuleStatus::Uninstantiated
                &&& st.module_def is None
                &&& st.bytecode is None
                &&& !st.synthetic
                &&& st.source_name@ == module_name(specifier@)
                &&& phase_rewritten(
                    raw_text@,
                    old(self).next_source_id as nat,
                    st.source_text@,
                    record_views(st.source_imports@),
                )
                &&& request_views(st.import_specifiers@) == requests(st.source_text@)
                &&& st.is_async == awaits(st.source_text@)
                &&& final(self).sources@ == inserted(
                    old(self).sources@,
                    module_name(specifier@),
                    st.source_text@,
                )
                &&& final(self).next_source_id == old(self).next_source_id + st.source_imports@.len()
                &&& pending_views(final(self).pending@) == if st.source_imports@.len() == 0 {
                    pending_views(old(self).pending@)
                } else {
                    pending_views(old(self).pending@).push((this, record_views(st.source_imports@)))
                }
            }),
            *final(self) == (Modules {
                states: final(self).states,
                sources: final(self).sources,
                next_source_id: final(self).next_source_id,
                pending: final(self).pending,
                ..*old(self)
            }),
    {
        let (text, source_imports) = rewrite_source_phase(raw_text, &mut self.next_source_id);
        let name = name_or_default(specifier);
        proof {
            reveal_strlit("<module>");
        }
        let import_specifiers = parse_import_specifiers(&text);
        let is_async = has_top_level_await(&text);
        self.sources.register_module_source(&name, &text);
        if source_imports.len() > 0 {
            let ghost before = self.pending@;
            let records = copy_records(&source_imports);
            self.pending.push((this, records));
            assert(pending_views(self.pending@) =~= pending_views(before).push(
                (this, record_views(source_imports@)),
            ));
        }
        assert(record_views(source_imports@).len() == source_imports@.len());
        self.record_module_state(
            this,
            ModuleState {
                status: ModuleStatus::Uninstantiated,
                module_def: None,
                bytecode: None,
                import_specifiers,
                source_imports,
                synthetic: false,
                is_async,
                source_text: text,
                source_name: name,
            },
        );
    }

    /// Hands out the source-phase imports that wait: each with the importing module.
    pub fn take_pending(&mut self) -> (r: Vec<(usize, Vec<(u64, String)>)>)
        ensures
            r@ == old(self).pending@,
            final(self).pending@.len() == 0,
            *final(self) == (Modules { pending: final(self).pending, ..*old(self) }),
    {
        let mut none: Vec<(usize, Vec<(u64, String)>)> = Vec::new();
        std::mem::swap(&mut none, &mut self.pending);
        none
    }

    /// Ends the instantiation of the module `this`. Modules are linked when they run, so that all there is
    /// to do is to note that a known module has come that far.
    pub fn instantiated(&mut self, this: usize) -> (r: MaybeBool)
        ensures
            only_states_differ(*old(self), *final(self)),
            if old(self).states@.dom().contains(this) {
                let st = old(self).states@[this];
                &&& r == MaybeBool::JustTrue
                &&& final(self).states@ == old(self).states@.insert(
                    this,
                    if st.status == ModuleStatus::Uninstantiated {
                        with_status(st, ModuleStatus::Instantiated)
                    } else {
                        st
                    },
                )
            } else {
                &&& r == MaybeBool::JustFalse
                &&& final(self).states@ == old(self).states@
            },
    {
        match self.states.get_mut(this) {
            Some(st) => {
                if st.status == ModuleStatus::Uninstantiated {
                    st.status = ModuleStatus::Instantiated;
                }
                MaybeBool::JustTrue
            },
            None => MaybeBool::JustFalse,
        }
    }
}

/// The phase of an import.
#[derive(Clone, Copy, PartialEq, Eq, Structural, Debug)]
pub enum ModuleImportPhase {
    Source,
    Evaluation,
}

/// A request of a module for another one.
pub struct ModuleRequest {
    /// The specifier, unless it holds a NUL.
    pub specifier: Option<String>,
    pub source_phase: bool,
    /// The `type` attribute, unless it holds a NUL.
    pub attribute: Option<String>,
}

/// A request as plain values: the specifier, the phase, the attribute.
pub type RequestView = (Option<Seq<char>>, bool, Option<Seq<char>>);

impl View for ModuleRequest {
    type V = RequestView;

    open spec fn view(&self) -> RequestView {
        (optional(self.specifier), self.source_phase, optional(self.attribute))
    }
}

/// The requests as plain values.
pub open spec fn all_request_views(v: Seq<ModuleRequest>) -> Seq<RequestView> {
    Seq::new(v.len(), |i: int| v[i]@)
}

/// The requests of a module: those of the source phase first.
pub open spec fn module_requests(
    imports: Seq<(nat, Seq<char>)>,
    specifiers: Seq<(Seq<char>, Option<Seq<char>>)>,
) -> Seq<RequestView> {
    Seq::new(imports.len(), |i: int| (without_nul(imports[i].1), true, None))
        + Seq::new(
        specifiers.len(),
        |i: int|
            (
                without_nul(specifiers[i].0),
                false,
                match specifiers[i].1 {
                    Some(t) => without_nul(t),
                    None => None,
                },
            ),
    )
}

impl Modules {
    /// The requests of the module `this`; none of one that is not known.
    pub fn get_module_requests(&self, this: usize) -> (r: Vec<ModuleRequest>)
        ensures
            all_request_views(r@) == if self.states@.dom().contains(this) {
                module_requests(
                    record_views(self.states@[this].source_imports@),
                    request_views(self.states@[this].import_specifiers@),
                )
            } else {
                seq![]
            },
    {
        let mut r: Vec<ModuleRequest> = Vec::new();
        match self.states.get(this) {
            None => {
                assert(all_request_views(r@) =~= seq![]);
            },
            Some(st) => {
                let ghost all = module_requests(
                    record_views(st.source_imports@),
                    request_views(st.import_specifiers@),
                );
                let n = st.source_imports.len();
                let mut i: usize = 0;
                while i < n
                    invariant
                        i <= n,
                        n == st.source_imports@.len(),
                        all == module_requests(
                            record_views(st.source_imports@),
                            request_views(st.import_specifiers@),
                        ),
                        all_request_views(r@) =~= all.take(i as int),
                    decreases n - i,
                {
                    let q = ModuleRequest {
                        specifier: copy_without_nul(&st.source_imports[i].1),
                        source_phase: true,
                        attribute: None,
                    };
                    assert(q@ == all[i as int]);
                    let ghost done = all_request_views(r@);
                    r.push(q);
                    assert(all_request_views(r@) =~= done.push(all[i as int]));
                    i += 1;
                }
                let mut k: usize = 0;
                while k < st.import_specifiers.len()
                    invariant
                        k <= st.import_specifiers.len(),
                        n == st.source_imports@.len(),
                        all == module_requests(
                            record_views(st.source_imports@),
                            request_views(st.import_specifiers@),
                        ),
                        all_request_views(r@) =~= all.take(n + k),
                    decreases st.import_specifiers.len() - k,
                {
                    let attribute = match &st.import_specifiers[k].1 {
                        Some(t) => copy_without_nul(t),
                        None => None,
                    };
                    let q = ModuleRequest {
                        specifier: copy_without_nul(&st.import_specifiers[k].0),
                        source_phase: false,
                        attribute,
                    };
                    assert(q@ == all[n + k]);
                    let ghost done = all_request_views(r@);
                    r.push(q);
                    assert(all_request_views(r@) =~= done.push(all[n + k]));
                    k += 1;
                }
                assert(all.take(n + k) =~= all);
            },
        }
        r
    }

    /// Takes up a synthetic module with the engine's definition `def`.
    pub fn create_synthetic_module(&mut self, this: usize, def: usize)
        ensures
            final(self).synthetic_defs@ == old(self).synthetic_defs@.insert(this, def),
            final(self).states@ == old(self).states@.insert(this, final(self).states@[this]),
            ({
                let st = final(self).states@[this];
                &&& st.status == ModuleStatus::Instantiated
                &&& st.module_def == Some(def)
                &&& st.bytecode is None
                &&& st.import_specifiers@.len() == 0
                &&& st.source_imports@.len() == 0
                &&& st.synthetic
                &&& !st.is_async
                &&& st.source_text@.len() == 0
                &&& st.source_name@.len() == 0
            }),
            *final(self) == (Modules {
                states: final(self).states,
                synthetic_defs: final(self).synthetic_defs,
                ..*old(self)
            }),
    {
        self.synthetic_defs.insert(this, def);
        self.record_module_state(
            this,
            ModuleState {
                status: ModuleStatus::Instantiated,
                module_def: Some(def),
                bytecode: None,
                import_specifiers: Vec::new(),
                source_imports: Vec::new(),
                synthetic: true,
                is_async: false,
                source_text: String::new(),
                source_name: String::new(),
            },
        );
    }

    /// The exports that the definition `def` was given and that the engine has not asked for.
    pub open spec fn exports_of(&self, def: usize) -> Seq<(Seq<char>, usize)> {
        if self.synthetic_exports@.dom().contains(def) {
            def_entries(self.synthetic_exports@[def]@)
        } else {
            seq![]
        }
    }

    /// Gives the synthetic module `this` an export; fails where it is none.
    pub fn set_synthetic_module_export(&mut self, this: usize, name: &str, value: usize) -> (r:
        MaybeBool)
        ensures
            *final(self) == (Modules {
                synthetic_exports: final(self).synthetic_exports,
                ..*old(self)
            }),
            if old(self).synthetic_defs@.dom().contains(this) {
                let def = old(self).synthetic_defs@[this];
                &&& r == MaybeBool::JustTrue
                &&& final(self).exports_of(def) == old(self).exports_of(def).push((name@, value))
                &&& forall|d: usize|
                    d != def ==> #[trigger] final(self).exports_of(d) == old(self).exports_of(d)
            } else {
                r == MaybeBool::JustFalse && *final(self) == *old(self)
            },
    {
        let def = match self.synthetic_defs.get(this) {
            Some(def) => *def,
            None => {
                return MaybeBool::JustFalse;
            },
        };
        if !self.synthetic_exports.contains(def) {
            self.synthetic_exports.insert(def, Vec::new());
        }
        let ghost before = old(self).exports_of(def);
        assert(self.exports_of(def) =~= before);
        if let Some(list) = self.synthetic_exports.get_mut(def) {
            list.push((name.to_owned(), value));
        }
        assert(self.exports_of(def) =~= before.push((name@, value)));
        MaybeBool::JustTrue
    }

    /// Hands out the exports that the definition `def` was given.
    pub fn take_synthetic_exports(&mut self, def: usize) -> (r: Vec<(String, usize)>)
        ensures
            *final(self) == (Modules {
                synthetic_exports: final(self).synthetic_exports,
                ..*old(self)
            }),
            def_entries(r@) == old(self).exports_of(def),
            final(self).synthetic_exports@ == old(self).synthetic_exports@.remove(def),
    {
        let mut out: Vec<(String, usize)> = Vec::new();
        if let Some(list) = self.synthetic_exports.get(def) {
            let mut i: usize = 0;
            while i < list.len()
                invariant
                    i <= list.len(),
                    def_entries(out@) =~= def_entries(list@).take(i as int),
                decreases list.len() - i,
            {
                let ghost done = def_entries(out@);
                out.push((list[i].0.clone(), list[i].1));
                assert(def_entries(out@) =~= done.push(def_entries(list@)[i as int]));
                i += 1;
            }
            assert(def_entries(list@).take(i as int) =~= def_entries(list@));
        }
        self.synthetic_exports.remove(def);
        out
    }
}

impl ModuleRequest {
    /// The phase of the request.
    pub fn get_phase(&self) -> (r: ModuleImportPhase)
        ensures
            r == if self.source_phase {
                ModuleImportPhase::Source
            } else {
                ModuleImportPhase::Evaluation
            },
    {
        if self.source_phase {
            ModuleImportPhase::Source
        } else {
            ModuleImportPhase::Evaluation
        }
    }

    /// The attributes of the request: each as its key, its value and its place in the text, which is not
    /// known.
    pub fn get_import_attributes(&self) -> (r: Vec<(String, String, i32)>)
        ensures
            match self.attribute {
                Some(t) => r@.len() == 1 && r@[0].0@ == "type"@ && r@[0].1@ == t@ && r@[0].2 == 0,
                None => r@.len() == 0,
            },
    {
        let mut r: Vec<(String, String, i32)> = Vec::new();
        if let Some(t) = &self.attribute {
            r.push(("type".to_owned(), t.clone(), 0));
        }
        r
    }
}

/// Once all modules are marked, each known one is evaluated, and none is lost or added.
pub proof fn law_marking_evaluates_all(m: Map<usize, ModuleState>)
    ensures
        all_evaluated(m).dom() == m.dom(),
        forall|k: usize| #[trigger]
            m.dom().contains(k) ==> all_evaluated(m)[k].status == ModuleStatus::Evaluated,
        all_evaluated(all_evaluated(m)) == all_evaluated(m),
{
    assert(all_evaluated(m).dom() =~= m.dom());
    assert(all_evaluated(all_evaluated(m)) =~= all_evaluated(m));
}

/// A module's `import.meta` is filled where it is enabled, the module is defined and its name is an address;
/// a WebAssembly module is told by its name.
pub proof fn law_import_meta(def: usize, rest: Seq<char>)
    ensures
        meta_of(false, Some(def), rest) is None,
        meta_of(true, None, rest) is None,
        !rest.contains('\0') ==> meta_of(true, Some(def), "file://"@ + rest + ".wasm"@) == Some(
            (Some("file://"@ + rest + ".wasm"@), false, true),
        ),
        !rest.contains('\0') ==> meta_of(true, Some(def), "https://"@ + rest + ".js"@) == Some(
            (Some("https://"@ + rest + ".js"@), false, false),
        ),
        !rest.contains('\0') ==> meta_of(true, Some(def), "http://"@ + rest + ".js"@) == Some(
            (Some("http://"@ + rest + ".js"@), false, false),
        ),
        rest.len() > 0 && rest[0] != 'f' && rest[0] != 'h' ==> meta_of(true, Some(def), rest) is None,
{
    reveal_strlit("file://");
    reveal_strlit("http://");
    reveal_strlit("https://");
    reveal_strlit(".wasm");
    reveal_strlit(".js");
    let a = "file://"@ + rest + ".wasm"@;
    let b = "https://"@ + rest + ".js"@;
    let c = "http://"@ + rest + ".js"@;
    assert(a.subrange(0, 7) =~= "file://"@);
    assert(b.subrange(0, 8) =~= "https://"@);
    assert(c.subrange(0, 7) =~= "http://"@);
    assert(a.subrange(a.len() - 5, a.len() as int) =~= ".wasm"@);
    assert(b.last() == 's' && c.last() == 's');
    if ends(b, ".wasm"@) {
        assert(b.subrange(b.len() - 5, b.len() as int)[4] == b.last());
    }
    if ends(c, ".wasm"@) {
        assert(c.subrange(c.len() - 5, c.len() as int)[4] == c.last());
    }
    if !rest.contains('\0') {
        lemma_without_nul_around("file://"@, rest, ".wasm"@);
        lemma_without_nul_around("https://"@, rest, ".js"@);
        lemma_without_nul_around("http://"@, rest, ".js"@);
    }
    if rest.len() > 0 && rest[0] != 'f' && rest[0] != 'h' {
        if begins(rest, "file://"@) {
            assert(rest.subrange(0, 7)[0] == rest[0]);
        }
        if begins(rest, "http://"@) {
            assert(rest.subrange(0, 7)[0] == rest[0]);
        }
        if begins(rest, "https://"@) {
            assert(rest.subrange(0, 8)[0] == rest[0]);
        }
    }
}

proof fn lemma_without_nul_around(a: Seq<char>, b: Seq<char>, c: Seq<char>)
    requires
        !a.contains('\0') && !b.contains('\0') && !c.contains('\0'),
    ensures
        !(a + b + c).contains('\0'),
{
    let s = a + b + c;
    if s.contains('\0') {
        let i = choose|i: int| 0 <= i < s.len() && s[i] == '\0';
        if i < a.len() {
            assert(a[i] == '\0');
        } else if i < a.len() + b.len() {
            assert(b[i - a.len()] == '\0');
        } else {
            assert(c[i - a.len() - b.len()] == '\0');
        }
    }
}

/// A module without a specifier goes by a name of its own.
pub proof fn law_module_names(specifier: Seq<char>)
    ensures
        specifier.len() > 0 ==> module_name(specifier) == specifier,
        module_name(seq![]) == "<module>"@,
{
}

/// The source-phase imports are requested first, without attributes; then the specifiers, each with its type.
/// What holds a NUL is not passed on.
pub proof fn law_requests_of_a_module(
    imports: Seq<(nat, Seq<char>)>,
    specifiers: Seq<(Seq<char>, Option<Seq<char>>)>,
    i: int,
    j: int,
)
    requires
        0 <= i < imports.len(),
        0 <= j < specifiers.len(),
    ensures
        ({
            let r = module_requests(imports, specifiers);
            let n = imports.len() as int;
            &&& r.len() == n + specifiers.len()
            &&& !imports[i].1.contains('\0') ==> r[i] == (Some(imports[i].1), true, None::<Seq<char>>)
            &&& imports[i].1.contains('\0') ==> r[i] == (None::<Seq<char>>, true, None::<Seq<char>>)
            &&& !specifiers[j].0.contains('\0') ==> r[n + j].0 == Some(specifiers[j].0)
            &&& specifiers[j].0.contains('\0') ==> r[n + j].0 is None
            &&& !r[n + j].1
            &&& specifiers[j].1 is None ==> r[n + j].2 is None
            &&& specifiers[j].1 matches Some(t) ==> !t.contains('\0') ==> r[n + j].2 == Some(t)
            &&& specifiers[j].1 matches Some(t) ==> t.contains('\0') ==> r[n + j].2 is None
        }),
{
}

/// An unknown module counts as failed; marking changes the status and nothing else.
pub proof fn law_statuses(m: Modules, this: usize, s: ModuleState, status: ModuleStatus)
    ensures
        !m.states@.dom().contains(this) ==> m.status_of(this) == ModuleStatus::Errored,
        m.states@.dom().contains(this) ==> m.status_of(this) == m.states@[this].status,
        with_status(s, status).status == status,
        with_status(s, status) == (ModuleState { status, ..s }),
{
}

/// The identity hash of a module gives its handle back.
pub proof fn law_identity_hashes(a: usize)
    requires
        a <= 0x7fff_ffff,
    ensures
        identity_hash(a) ^ 0x4d4f44i32 == a as i32,
{
    let h = a as i32;
    assert((h ^ 0x4d4f44i32) ^ 0x4d4f44i32 == h) by (bit_vector);
}

/// A text without source-phase imports is kept as it is.
pub proof fn law_text_without_source_imports(
    src: Seq<char>,
    first: nat,
    text: Seq<char>,
    imports: Seq<(nat, Seq<char>)>,
)
    requires
        !contains_text(src, "import source"@),
        phase_rewritten(src, first, text, imports),
    ensures
        text == src,
        imports.len() == 0,
{
}

/// A request is of the source phase or of the evaluation phase, and has its type as its only attribute.
pub proof fn law_phases_and_attributes(
    q: ModuleRequest,
    phase: ModuleImportPhase,
    attributes: Vec<(String, String, i32)>,
)
    requires
        call_ensures(ModuleRequest::get_phase, (&q,), phase),
        call_ensures(ModuleRequest::get_import_attributes, (&q,), attributes),
    ensures
        q.source_phase <==> phase == ModuleImportPhase::Source,
        q.attribute is None ==> attributes@.len() == 0,
        q.attribute matches Some(t) ==> attributes@.len() == 1 && attributes@[0].0@ == "type"@
            && attributes@[0].1@ == t@ && attributes@[0].2 == 0,
{
}

/// Jobs are run as long as the engine says that one ran.
pub proof fn law_draining(n: i32, r: bool)
    requires
        call_ensures(drain_goes_on, (n,), r),
    ensures
        r <==> n > 0,
{
}

/// A module that was instantiated is so from then on; a status that is past it stays.
pub proof fn law_instantiated_modules(a: Modules, b: Modules, this: usize, r: MaybeBool)
    requires
        exists|m: &mut Modules|
            *m == a && *final(m) == b && #[trigger] call_ensures(Modules::instantiated, (m, this), r),
    ensures
        !a.states@.dom().contains(this) ==> r == MaybeBool::JustFalse && b.states@ == a.states@,
        a.states@.dom().contains(this) ==> r == MaybeBool::JustTrue,
        a.states@.dom().contains(this) && a.states@[this].status == ModuleStatus::Uninstantiated
            ==> b.states@[this].status == ModuleStatus::Instantiated,
        a.states@.dom().contains(this) && a.states@[this].status != ModuleStatus::Uninstantiated
            ==> b.states@[this].status == a.states@[this].status,
        forall|k: usize| k != this && a.states@.dom().contains(k) ==> b.states@[k] == a.states@[k],
{
}

/// What a synthetic module exports is handed out once, in order.
pub proof fn law_synthetic_exports_are_handed_out(
    a: Modules,
    b: Modules,
    c: Modules,
    d: Modules,
    this: usize,
    def: usize,
    name: &str,
    value: usize,
    r: MaybeBool,
    out: Vec<(String, usize)>,
)
    requires
        a.exports_of(def).len() == 0,
        exists|m: &mut Modules|
            *m == a && *final(m) == b && #[trigger] call_ensures(Modules::create_synthetic_module, (m, this, def), ()),
        exists|m: &mut Modules|
            *m == b && *final(m) == c && #[trigger] call_ensures(Modules::set_synthetic_module_export, (m, this, name, value), r),
        exists|m: &mut Modules|
            *m == c && *final(m) == d && #[trigger] call_ensures(Modules::take_synthetic_exports, (m, def), out),
    ensures
        b.states@[this].synthetic && b.states@[this].module_def == Some(def),
        b.states@[this].status == ModuleStatus::Instantiated,
        r == MaybeBool::JustTrue,
        out@.len() == 1 && out@[0].0@ == name@ && out@[0].1 == value,
        d.exports_of(def).len() == 0,
{
    assert(b.exports_of(def) =~= a.exports_of(def));
    assert(def_entries(out@) =~= a.exports_of(def).push((name@, value)));
    assert(def_entries(out@)[0] == (name@, value));
}

/// Exports of a module that is not synthetic are refused.
pub proof fn law_other_exports_are_refused(a: Modules, b: Modules, this: usize, name: &str, value: usize, r: MaybeBool)
    requires
        !a.synthetic_defs@.dom().contains(this),
        exists|m: &mut Modules|
            *m == a && *final(m) == b && #[trigger] call_ensures(Modules::set_synthetic_module_export, (m, this, name, value), r),
    ensures
        r == MaybeBool::JustFalse,
        b == a,
{
}

/// Jobs are not run inside jobs: a second drain begins only when the first has ended.
pub proof fn law_drains_do_not_nest(a: Modules, b: Modules, c: Modules, d: Modules, e: Modules, first: bool, second: bool, third: bool)
    requires
        !a.draining,
        exists|m: &mut Modules|
            *m == a && *final(m) == b && #[trigger] call_ensures(Modules::begin_drain, (m, true), first),
        exists|m: &mut Modules|
            *m == b && *final(m) == c && #[trigger] call_ensures(Modules::begin_drain, (m, true), second),
        exists|m: &mut Modules|
            *m == c && *final(m) == d && #[trigger] call_ensures(Modules::end_drain, (m,), ()),
        exists|m: &mut Modules|
            *m == d && *final(m) == e && #[trigger] call_ensures(Modules::begin_drain, (m, true), third),
    ensures
        first && !second && third,
{
}

/// The source-phase imports that wait are handed out once.
pub proof fn law_pending_imports_are_handed_out_once(a: Modules, b: Modules, c: Modules, first: Vec<(usize, Vec<(u64, String)>)>, second: Vec<(usize, Vec<(u64, String)>)>)
    requires
        exists|m: &mut Modules|
            *m == a && *final(m) == b && #[trigger] call_ensures(Modules::take_pending, (m,), first),
        exists|m: &mut Modules|
            *m == b && *final(m) == c && #[trigger] call_ensures(Modules::take_pending, (m,), second),
    ensures
        first@ == a.pending@,
        second@.len() == 0,
{
}

} // verus!
