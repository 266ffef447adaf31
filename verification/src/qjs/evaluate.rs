//! Running modules: evaluating one, finding the definition of one that was never evaluated, and loading
//! one that another imports.
//!
//! The engine runs a module together with everything that it imports. A module whose text has run must
//! not run again, so that each of the three first looks for a definition that is there already. The
//! functions here decide what is asked of the engine next and what becomes of the answers.

use crate::qjs::bytecode::{bc_key, hashed};
use crate::qjs::module::{
    all_evaluated, import_meta, meta_of, meta_view, module_name, name_or_default,
    only_states_differ, with_status, ImportMeta, ModuleState, Modules,
};
use crate::status::ModuleStatus;
use crate::table::{inserted, value_of};
use crate::text::has_nul;
use std::collections::hash_map::DefaultHasher;
use vstd::prelude::*;
use vstd::std_specs::hash::DefaultHasherAdditionalSpecFns;
use vstd::utf8::encode_utf8;

verus! {

/// The key of the bytecode of the text `source`.
pub open spec fn key_of(source: Seq<char>) -> u64 {
    DefaultHasher::spec_finish(hashed(encode_utf8(source)))
}

/// The state with a definition.
pub open spec fn with_def(s: ModuleState, def: usize) -> ModuleState {
    ModuleState { module_def: Some(def), ..s }
}

/// The states with a definition for one module, if it is known.
pub open spec fn def_recorded(states: Map<usize, ModuleState>, this: usize, def: usize) -> Map<
    usize,
    ModuleState,
> {
    if states.dom().contains(this) {
        states.insert(this, with_def(states[this], def))
    } else {
        states
    }
}

impl Modules {
    /// Notes the definition of the module `this`, if it is known.
    pub fn record_def(&mut self, this: usize, def: usize)
        ensures
            final(self).states@ == def_recorded(old(self).states@, this, def),
            only_states_differ(*old(self), *final(self)),
    {
        if let Some(st) = self.states.get_mut(this) {
            st.module_def = Some(def);
        }
    }
}

/// A module that is being evaluated.
pub struct Evaluation {
    pub module: usize,
    /// The module as it was compiled ahead of time.
    pub bytecode: Option<usize>,
    pub source_text: String,
    pub source_name: String,
}

/// What is to be done next.
#[derive(Clone, Copy, PartialEq, Eq, Structural, Debug)]
pub enum Step {
    /// Say whether this definition has been evaluated and whether its evaluation has begun.
    Inspect(usize),
    /// Run this definition, which has run before, for its promise.
    RunAgain(usize),
    /// Run this compiled module.
    RunBytecode(usize),
    /// Read the bytecode that is kept under this key.
    ReadBytecode(u64),
    /// Compile the text under the name; keep the bytecode.
    Compile,
    /// Run this definition, whose `import.meta` has been filled.
    RunModule(usize),
    /// Compile the text under the name and run it.
    RunSource,
    /// There is nothing to run.
    RunNothing,
    /// The evaluation is over.
    Done(Answer),
}

/// What the embedder is given.
#[derive(Clone, Copy, PartialEq, Eq, Structural, Debug)]
pub enum Answer {
    /// A promise that is resolved, or undefined where none can be had.
    Resolved,
    /// This value.
    Value(usize),
    /// A new promise that is resolved, or nothing where none can be had.
    Fresh,
}

/// What became of a run.
#[derive(Clone, Copy, PartialEq, Eq, Structural, Debug)]
pub enum Outcome {
    /// An exception.
    Threw,
    /// A promise that is neither fulfilled nor rejected.
    Pending(usize),
    /// Any other value.
    Other(usize),
}

/// How a module is run that has no definition to be used again.
pub open spec fn way_to_run(bytecode: Option<usize>, text: Seq<char>, name: Seq<char>) -> Step {
    match bytecode {
        Some(b) => Step::RunBytecode(b),
        None => if text.len() == 0 || module_name(name).contains('\0') {
            Step::RunNothing
        } else {
            Step::ReadBytecode(key_of(text))
        },
    }
}

/// What is known of a module before it is evaluated: the bytecode, the text and the name.
pub open spec fn material(states: Map<usize, ModuleState>, this: usize) -> (
    Option<usize>,
    Seq<char>,
    Seq<char>,
) {
    if states.dom().contains(this) {
        (
            states[this].bytecode,
            states[this].source_text@,
            states[this].source_name@,
        )
    } else {
        (None, seq![], seq![])
    }
}

/// A definition of the module has been noted.
pub open spec fn has_def(states: Map<usize, ModuleState>, this: usize) -> bool {
    states.dom().contains(this) && states[this].module_def is Some
}

/// The states once the evaluation of a module has begun: it counts as evaluated, and its bytecode is used
/// up unless it had run before.
pub open spec fn begun(states: Map<usize, ModuleState>, this: usize) -> Map<usize, ModuleState> {
    if !states.dom().contains(this) {
        states
    } else if states[this].module_def is Some {
        states.insert(this, with_status(states[this], ModuleStatus::Evaluated))
    } else {
        states.insert(
            this,
            ModuleState { status: ModuleStatus::Evaluated, bytecode: None, ..states[this] },
        )
    }
}

/// The first step of an evaluation.
pub open spec fn first_step(m: Modules, this: usize) -> Step {
    if has_def(m.states@, this) {
        Step::Done(Answer::Resolved)
    } else {
        let (bytecode, text, name) = material(m.states@, this);
        match value_of(m.defs@, name) {
            Some(def) => if name.len() > 0 {
                Step::Inspect(def)
            } else {
                way_to_run(bytecode, text, name)
            },
            None => way_to_run(bytecode, text, name),
        }
    }
}

/// Begins to evaluate the module `this`.
pub fn begin(modules: &mut Modules, this: usize) -> (r: (Evaluation, Step))
    ensures
        final(modules).states@ == begun(old(modules).states@, this),
        only_states_differ(*old(modules), *final(modules)),
        r.1 == first_step(*old(modules), this),
        r.0.module == this,
        !has_def(old(modules).states@, this) ==> (
            r.0.bytecode,
            r.0.source_text@,
            r.0.source_name@,
        ) == material(old(modules).states@, this),
{
    let mut e = Evaluation {
        module: this,
        bytecode: None,
        source_text: String::new(),
        source_name: String::new(),
    };
    if let Some(st) = modules.states.get_mut(this) {
        st.status = ModuleStatus::Evaluated;
        if st.module_def.is_some() {
            return (e, Step::Done(Answer::Resolved));
        }
        e.bytecode = st.bytecode;
        st.bytecode = None;
        e.source_text = st.source_text.clone();
        e.source_name = st.source_name.clone();
    }
    assert(e.source_name@ =~= material(old(modules).states@, this).2);
    assert(e.source_text@ =~= material(old(modules).states@, this).1);
    if !e.source_name.as_str().is_empty() {
        if let Some(def) = modules.defs.get(&e.source_name) {
            return (e, Step::Inspect(def));
        }
    }
    let s = e.run();
    (e, s)
}

impl Evaluation {
    /// The next step where no definition can be used again.
    pub open spec fn way(&self) -> Step {
        way_to_run(self.bytecode, self.source_text@, self.source_name@)
    }

    fn run(&self) -> (r: Step)
        ensures
            r == self.way(),
    {
        match self.bytecode {
            Some(b) => Step::RunBytecode(b),
            None => {
                if self.source_text.as_str().is_empty() || has_nul(
                    &name_or_default(&self.source_name),
                ) {
                    Step::RunNothing
                } else {
                    Step::ReadBytecode(bc_key(&self.source_text))
                }
            },
        }
    }

    /// Goes on once the engine has said of the definition `def` whether it has been evaluated and whether
    /// its evaluation has begun. One that is being evaluated will be finished by whoever began it; one that
    /// has been evaluated is used again; one that was only linked is left to run in the order of its
    /// importers.
    pub fn inspected(&self, modules: &mut Modules, def: usize, evaluated: bool, started: bool) -> (r:
        Step)
        ensures
            only_states_differ(*old(modules), *final(modules)),
            r == if evaluated {
                Step::RunAgain(def)
            } else if started {
                Step::Done(Answer::Resolved)
            } else {
                self.way()
            },
            final(modules).states@ == if evaluated || started {
                def_recorded(old(modules).states@, self.module, def)
            } else {
                old(modules).states@
            },
    {
        if evaluated {
            modules.record_def(self.module, def);
            Step::RunAgain(def)
        } else if started {
            modules.record_def(self.module, def);
            Step::Done(Answer::Resolved)
        } else {
            self.run()
        }
    }

    /// Ends an evaluation that ran a definition again.
    pub fn ran_again(&self, outcome: Outcome) -> (r: Answer)
        ensures
            r == match outcome {
                Outcome::Threw => Answer::Resolved,
                Outcome::Pending(v) => Answer::Value(v),
                Outcome::Other(v) => Answer::Value(v),
            },
    {
        match outcome {
            Outcome::Threw => Answer::Resolved,
            Outcome::Pending(v) => Answer::Value(v),
            Outcome::Other(v) => Answer::Value(v),
        }
    }

    /// Goes on once the bytecode has been read: `def` is the definition that it holds, if it could be read.
    /// Its `import.meta` is filled before it is run.
    pub fn read(&self, modules: &mut Modules, def: Option<usize>) -> (r: (Step, Option<ImportMeta>))
        ensures
            only_states_differ(*old(modules), *final(modules)),
            final(modules).states@ == match def {
                Some(d) => def_recorded(old(modules).states@, self.module, d),
                None => old(modules).states@,
            },
            r.0 == match def {
                Some(d) => Step::RunModule(d),
                None => if self.source_text@.contains('\0') {
                    Step::RunNothing
                } else {
                    Step::Compile
                },
            },
            meta_view(r.1) == meta_of(old(modules).import_meta_enabled, def, self.source_name@),
    {
        let meta = import_meta(modules.import_meta_enabled, def, &self.source_name);
        match def {
            Some(d) => {
                modules.record_def(self.module, d);
                (Step::RunModule(d), meta)
            },
            None => {
                if has_nul(&self.source_text) {
                    (Step::RunNothing, meta)
                } else {
                    (Step::Compile, meta)
                }
            },
        }
    }

    /// Goes on once the text has been compiled: `def` is the definition, if there were no errors. Its
    /// `import.meta` is filled before it is run.
    pub fn compiled(&self, modules: &mut Modules, def: Option<usize>) -> (r: (
        Step,
        Option<ImportMeta>,
    ))
        ensures
            only_states_differ(*old(modules), *final(modules)),
            final(modules).states@ == match def {
                Some(d) => def_recorded(old(modules).states@, self.module, d),
                None => old(modules).states@,
            },
            r.0 == match def {
                Some(d) => Step::RunModule(d),
                None => Step::RunSource,
            },
            meta_view(r.1) == meta_of(old(modules).import_meta_enabled, def, self.source_name@),
    {
        let meta = import_meta(modules.import_meta_enabled, def, &self.source_name);
        match def {
            Some(d) => {
                modules.record_def(self.module, d);
                (Step::RunModule(d), meta)
            },
            None => (Step::RunSource, meta),
        }
    }

    /// Ends an evaluation that ran the module, or had nothing to run. A promise that is pending is handed on:
    /// the module is still running. In any other case all modules count as evaluated.
    pub fn ran(&self, modules: &mut Modules, outcome: Outcome) -> (r: Answer)
        ensures
            match outcome {
                Outcome::Pending(p) => r == Answer::Value(p) && *final(modules) == *old(modules),
                _ => {
                    &&& r == Answer::Fresh
                    &&& final(modules).states@ == all_evaluated(old(modules).states@)
                    &&& *final(modules) == (Modules {
                        states: final(modules).states,
                        after_first_eval: true,
                        ..*old(modules)
                    })
                },
            },
    {
        match outcome {
            Outcome::Pending(p) => Answer::Value(p),
            _ => {
                modules.mark_all_modules_evaluated();
                Answer::Fresh
            },
        }
    }
}

/// What is to be done next to find the definition of a module.
#[derive(Clone, Copy, PartialEq, Eq, Structural, Debug)]
pub enum Search {
    /// Say whether the engine has loaded a module of this name.
    LookUp,
    /// Run this definition, then hand it out.
    Run(usize),
    /// Read the bytecode that is kept under this key.
    ReadBytecode(u64),
    /// Compile the text under the name; keep the bytecode.
    Compile,
    /// The search is over.
    Done(Option<usize>),
}

/// A module whose definition is wanted.
pub struct Materialization {
    pub module: usize,
    pub source_text: String,
    pub source_name: String,
}

/// How the definition is had where the engine has loaded no module of the name.
pub open spec fn way_to_compile(text: Seq<char>, name: Seq<char>) -> Search {
    if module_name(name).contains('\0') {
        Search::Done(None)
    } else {
        Search::ReadBytecode(key_of(text))
    }
}

/// The first step of a search.
pub open spec fn first_search(states: Map<usize, ModuleState>, this: usize) -> Search {
    if !states.dom().contains(this) {
        Search::Done(None)
    } else {
        let st = states[this];
        match st.module_def {
            Some(def) => Search::Done(Some(def)),
            None => if st.source_text@.len() == 0 {
                Search::Done(None)
            } else if st.source_name@.len() > 0 && !st.source_name@.contains('\0') {
                Search::LookUp
            } else {
                way_to_compile(st.source_text@, st.source_name@)
            },
        }
    }
}

/// The states once a module has been compiled on demand: it has the definition and counts as evaluated.
pub open spec fn materialized(states: Map<usize, ModuleState>, this: usize, def: usize) -> Map<
    usize,
    ModuleState,
> {
    if states.dom().contains(this) {
        states.insert(
            this,
            ModuleState {
                module_def: Some(def),
                status: ModuleStatus::Evaluated,
                ..states[this]
            },
        )
    } else {
        states
    }
}

/// Begins to search for the definition of the module `this`.
pub fn materialize(modules: &Modules, this: usize) -> (r: (Materialization, Search))
    ensures
        r.1 == first_search(modules.states@, this),
        r.0.module == this,
        !(r.1 is Done) ==> r.0.source_text@ == modules.states@[this].source_text@
            && r.0.source_name@ == modules.states@[this].source_name@,
{
    let mut m = Materialization {
        module: this,
        source_text: String::new(),
        source_name: String::new(),
    };
    match modules.states.get(this) {
        None => (m, Search::Done(None)),
        Some(st) => {
            if let Some(def) = st.module_def {
                return (m, Search::Done(Some(def)));
            }
            if st.source_text.as_str().is_empty() {
                return (m, Search::Done(None));
            }
            m.source_text = st.source_text.clone();
            m.source_name = st.source_name.clone();
            let s = if !st.source_name.as_str().is_empty() && !has_nul(&st.source_name) {
                Search::LookUp
            } else {
                m.compile()
            };
            (m, s)
        },
    }
}

impl Materialization {
    fn compile(&self) -> (r: Search)
        ensures
            r == way_to_compile(self.source_text@, self.source_name@),
    {
        if has_nul(&name_or_default(&self.source_name)) {
            Search::Done(None)
        } else {
            Search::ReadBytecode(bc_key(&self.source_text))
        }
    }

    /// Goes on once the engine has said which module of the name it has loaded, whether that has been
    /// evaluated, and whether its evaluation has begun. One that was only linked is run, so that its
    /// bindings can be read; one that is being evaluated must not be run inside itself.
    pub fn looked_up(
        &self,
        modules: &mut Modules,
        loaded: Option<usize>,
        evaluated: bool,
        started: bool,
    ) -> (r: Search)
        ensures
            r == match loaded {
                Some(def) => if evaluated || started {
                    Search::Done(Some(def))
                } else {
                    Search::Run(def)
                },
                None => way_to_compile(self.source_text@, self.source_name@),
            },
            *final(modules) == (Modules {
                states: final(modules).states,
                defs: final(modules).defs,
                ..*old(modules)
            }),
            final(modules).states@ == match loaded {
                Some(def) => def_recorded(old(modules).states@, self.module, def),
                None => old(modules).states@,
            },
            final(modules).defs@ == match loaded {
                Some(def) => inserted(old(modules).defs@, self.source_name@, def),
                None => old(modules).defs@,
            },
    {
        match loaded {
            Some(def) => {
                modules.record_def(self.module, def);
                modules.defs.insert(&self.source_name, def);
                if evaluated || started {
                    Search::Done(Some(def))
                } else {
                    Search::Run(def)
                }
            },
            None => self.compile(),
        }
    }

    /// Goes on once the bytecode has been read: `def` is the definition that it holds, if it could be read.
    /// Its `import.meta` is filled before it is run; that of a definition that was looked up is not.
    pub fn read(&self, modules: &mut Modules, def: Option<usize>) -> (r: (Search, Option<ImportMeta>))
        ensures
            only_states_differ(*old(modules), *final(modules)),
            final(modules).states@ == match def {
                Some(d) => materialized(old(modules).states@, self.module, d),
                None => old(modules).states@,
            },
            r.0 == match def {
                Some(d) => Search::Run(d),
                None => if self.source_text@.contains('\0') {
                    Search::Done(None)
                } else {
                    Search::Compile
                },
            },
            meta_view(r.1) == meta_of(old(modules).import_meta_enabled, def, self.source_name@),
    {
        let meta = import_meta(modules.import_meta_enabled, def, &self.source_name);
        match def {
            Some(d) => {
                self.accept(modules, d);
                (Search::Run(d), meta)
            },
            None => {
                if has_nul(&self.source_text) {
                    (Search::Done(None), meta)
                } else {
                    (Search::Compile, meta)
                }
            },
        }
    }

    /// Goes on once the text has been compiled: `def` is the definition, if there were no errors. Its
    /// `import.meta` is filled before it is run.
    pub fn compiled(&self, modules: &mut Modules, def: Option<usize>) -> (r: (
        Search,
        Option<ImportMeta>,
    ))
        ensures
            only_states_differ(*old(modules), *final(modules)),
            final(modules).states@ == match def {
                Some(d) => materialized(old(modules).states@, self.module, d),
                None => old(modules).states@,
            },
            r.0 == match def {
                Some(d) => Search::Run(d),
                None => Search::Done(None),
            },
            meta_view(r.1) == meta_of(old(modules).import_meta_enabled, def, self.source_name@),
    {
        let meta = import_meta(modules.import_meta_enabled, def, &self.source_name);
        match def {
            Some(d) => {
                self.accept(modules, d);
                (Search::Run(d), meta)
            },
            None => (Search::Done(None), meta),
        }
    }

    fn accept(&self, modules: &mut Modules, def: usize)
        ensures
            only_states_differ(*old(modules), *final(modules)),
            final(modules).states@ == materialized(old(modules).states@, self.module, def),
    {
        if let Some(st) = modules.states.get_mut(self.module) {
            st.module_def = Some(def);
            st.status = ModuleStatus::Evaluated;
        }
    }
}

/// A module that the engine asks for.
pub struct Load {
    pub name: String,
    pub source: String,
}

/// The first step of loading a module: without a text, or with a NUL in the text or the name, it fails.
pub open spec fn first_load(m: Modules, name: Seq<char>) -> Search {
    match value_of(m.sources@, name) {
        None => Search::Done(None),
        Some(source) => if source.contains('\0') || name.contains('\0') {
            Search::Done(None)
        } else {
            Search::LookUp
        },
    }
}

/// Begins to load the module `name`.
pub fn load(modules: &Modules, name: &str) -> (r: (Load, Search))
    ensures
        r.1 == first_load(*modules, name@),
        r.1 is LookUp ==> r.0.name@ == name@ && value_of(modules.sources@, name@) == Some(
            r.0.source@,
        ),
{
    let mut l = Load { name: name.to_owned(), source: String::new() };
    match modules.sources.lookup_module_source_by_name(name) {
        None => (l, Search::Done(None)),
        Some(source) => {
            if has_nul(&source) || has_nul(name) {
                return (l, Search::Done(None));
            }
            l.source = source;
            (l, Search::LookUp)
        },
    }
}

impl Load {
    /// The definitions with one for this module, if there is one.
    pub open spec fn noted(&self, m: Modules, def: Option<usize>) -> Seq<(Seq<char>, usize)> {
        match def {
            Some(d) => inserted(m.defs@, self.name@, d),
            None => m.defs@,
        }
    }

    fn note(&self, modules: &mut Modules, def: Option<usize>)
        ensures
            final(modules).defs@ == self.noted(*old(modules), def),
            *final(modules) == (Modules { defs: final(modules).defs, ..*old(modules) }),
    {
        if let Some(d) = def {
            modules.defs.insert(&self.name, d);
        }
    }

    /// Goes on once the engine has said which module of the name it has loaded. That one is used: a second
    /// definition of the same module would run its text a second time.
    pub fn looked_up(&self, modules: &mut Modules, loaded: Option<usize>) -> (r: Search)
        ensures
            final(modules).defs@ == self.noted(*old(modules), loaded),
            *final(modules) == (Modules { defs: final(modules).defs, ..*old(modules) }),
            r == match loaded {
                Some(def) => Search::Done(Some(def)),
                None => Search::ReadBytecode(key_of(self.source@)),
            },
    {
        self.note(modules, loaded);
        match loaded {
            Some(def) => Search::Done(Some(def)),
            None => Search::ReadBytecode(bc_key(&self.source)),
        }
    }

    /// Goes on once the bytecode has been read: `def` is the definition that it holds, if it could be read.
    /// `import.meta` of a definition that is handed out is filled.
    pub fn read(&self, modules: &mut Modules, def: Option<usize>) -> (r: (Search, Option<ImportMeta>))
        ensures
            final(modules).defs@ == self.noted(*old(modules), def),
            *final(modules) == (Modules { defs: final(modules).defs, ..*old(modules) }),
            r.0 == match def {
                Some(d) => Search::Done(Some(d)),
                None => Search::Compile,
            },
            meta_view(r.1) == meta_of(old(modules).import_meta_enabled, def, self.name@),
    {
        self.note(modules, def);
        let meta = import_meta(modules.import_meta_enabled, def, &self.name);
        match def {
            Some(d) => (Search::Done(Some(d)), meta),
            None => (Search::Compile, meta),
        }
    }

    /// Ends once the text has been compiled: `def` is the definition, if there were no errors.
    pub fn compiled(&self, modules: &mut Modules, def: Option<usize>) -> (r: (
        Search,
        Option<ImportMeta>,
    ))
        ensures
            final(modules).defs@ == self.noted(*old(modules), def),
            *final(modules) == (Modules { defs: final(modules).defs, ..*old(modules) }),
            r.0 == Search::Done(def),
            meta_view(r.1) == meta_of(old(modules).import_meta_enabled, def, self.name@),
    {
        self.note(modules, def);
        let meta = import_meta(modules.import_meta_enabled, def, &self.name);
        (Search::Done(def), meta)
    }
}

/// A module whose definition has been noted is not run by evaluating it: the answer is a resolved promise.
pub proof fn law_module_with_definition_does_not_run(m: Modules, this: usize)
    requires
        has_def(m.states@, this),
    ensures
        first_step(m, this) == Step::Done(Answer::Resolved),
        first_search(m.states@, this) == Search::Done(m.states@[this].module_def),
        has_def(begun(m.states@, this), this),
{
}

/// A definition that is noted stays noted, whatever is evaluated, run or compiled later; so a module whose
/// definition was run is not run again.
pub proof fn law_definition_stays(
    states: Map<usize, ModuleState>,
    this: usize,
    other: usize,
    def: usize,
)
    requires
        has_def(states, this),
    ensures
        has_def(begun(states, other), this),
        has_def(def_recorded(states, other, def), this),
        has_def(materialized(states, other, def), this),
        has_def(all_evaluated(states), this),
{
}

/// The definition of a known module is noted before it is run.
pub proof fn law_definition_is_noted_before_the_run(
    states: Map<usize, ModuleState>,
    this: usize,
    def: usize,
)
    requires
        states.dom().contains(this),
    ensures
        has_def(def_recorded(states, this, def), this),
        has_def(materialized(states, this, def), this),
{
}

/// The module that is being evaluated counts as evaluated from the beginning; its bytecode is used once.
pub proof fn law_evaluation_marks_the_module(states: Map<usize, ModuleState>, this: usize)
    requires
        states.dom().contains(this),
    ensures
        begun(states, this)[this].status == ModuleStatus::Evaluated,
        states[this].module_def is None ==> begun(states, this)[this].bytecode is None,
{
}

/// A module is run once. An evaluation that found or made a definition of it notes that, whatever became of
/// the run; a second evaluation then runs nothing, answers with a resolved promise, and leaves everything
/// as it is, the module evaluated.
///
/// `begun_with` is what is known once the first evaluation has begun, `noted` once it has the definition,
/// and `ended` once it is over.
pub proof fn law_second_evaluation_does_not_run(
    before: Modules,
    begun_with: Modules,
    noted: Modules,
    ended: Modules,
    this: usize,
    def: usize,
)
    requires
        before.states@.dom().contains(this),
        begun_with.states@ == begun(before.states@, this),
        noted.states@ == def_recorded(begun_with.states@, this, def),
        ended.states@ == noted.states@ || ended.states@ == all_evaluated(noted.states@),
    ensures
        first_step(ended, this) == Step::Done(Answer::Resolved),
        ended.states@[this].status == ModuleStatus::Evaluated,
        ended.states@[this].module_def == Some(def),
        begun(ended.states@, this) == ended.states@,
{
    assert(begun(ended.states@, this) =~= ended.states@);
}

/// A module that was loaded for an import is not compiled again to be evaluated: its definition is found
/// under its name.
pub proof fn law_loaded_module_is_found(
    l: Load,
    before: Modules,
    after: Modules,
    def: usize,
    this: usize,
)
    requires
        after.defs@ == l.noted(before, Some(def)),
        after.states@.dom().contains(this),
        after.states@[this].source_name@ == l.name@,
        l.name@.len() > 0,
        !has_def(after.states@, this),
    ensures
        first_step(after, this) == Step::Inspect(def),
{
    crate::table::law_insert_then_look_up(before.defs@, l.name@, def, l.name@);
}

/// A module runs from its bytecode where it has some, and else from what is kept under the key of its text; one
/// without a text, or with a name that cannot be handed on, does not run.
pub proof fn law_ways_to_run(b: usize, text: Seq<char>, name: Seq<char>)
    ensures
        way_to_run(Some(b), text, name) == Step::RunBytecode(b),
        way_to_run(None, seq![], name) == Step::RunNothing,
        name.contains('\0') ==> way_to_run(None, text, name) == Step::RunNothing,
        text.len() > 0 && name.len() > 0 && !name.contains('\0') ==> way_to_run(None, text, name)
            == Step::ReadBytecode(DefaultHasher::spec_finish(hashed(encode_utf8(text)))),
        text.len() > 0 ==> way_to_run(None, text, seq![]) == Step::ReadBytecode(
            DefaultHasher::spec_finish(hashed(encode_utf8(text))),
        ),
{
    reveal_strlit("<module>");
}

/// A module that is defined already is not run again; one whose name is known to the engine is looked at
/// first, and any other is run.
pub proof fn law_first_steps(m: Modules, this: usize, def: usize)
    requires
        m.states@.dom().contains(this),
    ensures
        ({
            let st = m.states@[this];
            &&& st.module_def is Some ==> first_step(m, this) == Step::Done(Answer::Resolved)
            &&& st.module_def is None && st.source_name@.len() > 0 && value_of(m.defs@, st.source_name@)
                == Some(def) ==> first_step(m, this) == Step::Inspect(def)
            &&& st.module_def is None && (st.source_name@.len() == 0 || value_of(
                m.defs@,
                st.source_name@,
            ) is None) ==> first_step(m, this) == way_to_run(
                st.bytecode,
                st.source_text@,
                st.source_name@,
            )
        }),
{
}

/// A module that is unknown is not found; one that is defined is at hand; one with a text is looked up by its
/// name, and compiled where the name is empty.
pub proof fn law_first_searches(states: Map<usize, ModuleState>, this: usize)
    ensures
        !states.dom().contains(this) ==> first_search(states, this) == Search::Done(None),
        states.dom().contains(this) ==> {
            let st = states[this];
            &&& st.module_def is Some ==> first_search(states, this) == Search::Done(st.module_def)
            &&& st.module_def is None && st.source_text@.len() == 0 ==> first_search(states, this)
                == Search::Done(None)
            &&& st.module_def is None && st.source_text@.len() > 0 && st.source_name@.len() > 0
                && !st.source_name@.contains('\0') ==> first_search(states, this) == Search::LookUp
            &&& st.module_def is None && st.source_text@.len() > 0 && st.source_name@.len() == 0
                ==> first_search(states, this) == Search::ReadBytecode(
                DefaultHasher::spec_finish(hashed(encode_utf8(st.source_text@))),
            )
            &&& st.module_def is None && st.source_text@.len() > 0 && st.source_name@.contains('\0')
                ==> first_search(states, this) == Search::Done(None)
        },
{
    reveal_strlit("<module>");
}

/// A module whose text is known is looked up first; one whose text or name cannot be handed on is not loaded.
pub proof fn law_first_loads(m: Modules, name: Seq<char>, source: Seq<char>)
    ensures
        value_of(m.sources@, name) is None ==> first_load(m, name) == Search::Done(None),
        value_of(m.sources@, name) == Some(source) && !source.contains('\0') && !name.contains('\0')
            ==> first_load(m, name) == Search::LookUp,
        value_of(m.sources@, name) == Some(source) && (source.contains('\0') || name.contains('\0'))
            ==> first_load(m, name) == Search::Done(None),
{
}

/// What is noted of a module changes nothing of any other, and of the module only what it says.
pub proof fn law_notes_on_a_module(states: Map<usize, ModuleState>, this: usize, other: usize, def: usize)
    requires
        states.dom().contains(this),
        other != this,
    ensures
        def_recorded(states, this, def)[this] == (ModuleState { module_def: Some(def), ..states[this] }),
        materialized(states, this, def)[this] == (ModuleState {
            module_def: Some(def),
            status: ModuleStatus::Evaluated,
            ..states[this]
        }),
        states[this].module_def is Some ==> begun(states, this)[this] == (ModuleState {
            status: ModuleStatus::Evaluated,
            ..states[this]
        }),
        states[this].module_def is None ==> begun(states, this)[this] == (ModuleState {
            status: ModuleStatus::Evaluated,
            bytecode: None,
            ..states[this]
        }),
        def_recorded(states, this, def)[other] == states[other],
        materialized(states, this, def)[other] == states[other],
        begun(states, this)[other] == states[other],
        def_recorded(states, this, def).dom() == states.dom(),
        materialized(states, this, def).dom() == states.dom(),
        begun(states, this).dom() == states.dom(),
{
    assert(def_recorded(states, this, def).dom() =~= states.dom());
    assert(materialized(states, this, def).dom() =~= states.dom());
    assert(begun(states, this).dom() =~= states.dom());
}

} // verus!
