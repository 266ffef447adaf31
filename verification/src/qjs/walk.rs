//! Learning what specifiers stand for: all modules that a module leads to are walked, and the embedder is
//! asked about each of their specifiers.

use crate::qjs::imports::request_views;
use crate::qjs::module::{copy_records, ModuleState, Modules};
use crate::qjs::source_phase::record_views;
use crate::table::{inserted, value_of};
use crate::text::{chars_of, has_nul, is_text, strings};
use vstd::prelude::*;

verus! {

/// A module that is being walked.
pub struct Frame {
    pub module: usize,
    /// Its name.
    pub base: String,
    /// Its source-phase imports.
    pub sources: Vec<(u64, String)>,
    /// What it imports.
    pub specifiers: Vec<String>,
    /// How many source-phase imports have been taken up.
    pub next_source: usize,
    /// How many specifiers have been taken up.
    pub next: usize,
}

/// A frame as plain values.
#[verifier::ext_equal]
pub struct FrameView {
    pub module: usize,
    pub base: Seq<char>,
    pub sources: Seq<(nat, Seq<char>)>,
    pub specifiers: Seq<Seq<char>>,
    pub next_source: int,
    pub next: int,
}

impl View for Frame {
    type V = FrameView;

    open spec fn view(&self) -> FrameView {
        FrameView {
            module: self.module,
            base: self.base@,
            sources: record_views(self.sources@),
            specifiers: strings(self.specifiers@),
            next_source: self.next_source as int,
            next: self.next as int,
        }
    }
}

/// A walk under way.
pub struct Walk {
    /// The modules that have been taken up.
    pub visited: Vec<usize>,
    /// The modules that were found.
    pub stack: Vec<usize>,
    /// The module that is being walked.
    pub current: Option<Frame>,
}

/// A walk as plain values.
#[verifier::ext_equal]
pub struct WalkView {
    pub visited: Seq<usize>,
    pub stack: Seq<usize>,
    pub current: Option<FrameView>,
}

impl View for Walk {
    type V = WalkView;

    open spec fn view(&self) -> WalkView {
        WalkView {
            visited: self.visited@,
            stack: self.stack@,
            current: match self.current {
                Some(f) => Some(f@),
                None => None,
            },
        }
    }
}

/// What is to be done next.
pub enum Step {
    /// Have the embedder resolve a source-phase import, and keep what comes back under the number.
    ResolveSource { module: usize, id: u64, specifier: String },
    /// Have the embedder resolve a specifier and report the module.
    Resolve { module: usize, specifier: String },
    /// Go on.
    Continue,
    /// The walk is over.
    Done,
}

/// A step as plain values.
pub enum StepView {
    ResolveSource { module: usize, id: nat, specifier: Seq<char> },
    Resolve { module: usize, specifier: Seq<char> },
    Continue,
    Done,
}

impl View for Step {
    type V = StepView;

    open spec fn view(&self) -> StepView {
        match self {
            Step::ResolveSource { module, id, specifier } => StepView::ResolveSource {
                module: *module,
                id: *id as nat,
                specifier: specifier@,
            },
            Step::Resolve { module, specifier } => StepView::Resolve {
                module: *module,
                specifier: specifier@,
            },
            Step::Continue => StepView::Continue,
            Step::Done => StepView::Done,
        }
    }
}

/// The specifiers alone.
pub open spec fn specifiers_of(st: ModuleState) -> Seq<Seq<char>> {
    Seq::new(
        st.import_specifiers@.len(),
        |i: int| request_views(st.import_specifiers@)[i].0,
    )
}

/// The frame of a module that has just been taken up.
pub open spec fn fresh_frame(module: usize, st: ModuleState) -> FrameView {
    FrameView {
        module,
        base: st.source_name@,
        sources: record_views(st.source_imports@),
        specifiers: specifiers_of(st),
        next_source: 0,
        next: 0,
    }
}

/// The walk and what is to be done after one step. Source-phase imports come first, where the embedder
/// resolves them at all. Specifiers that hold a NUL are passed over. A module that was taken up before, or
/// that is not known, is passed over too.
pub open spec fn advanced(
    w: WalkView,
    states: Map<usize, ModuleState>,
    with_sources: bool,
) -> (WalkView, StepView) {
    match w.current {
        Some(f) => if with_sources && f.next_source < f.sources.len() {
            let g = FrameView { next_source: f.next_source + 1, ..f };
            let (id, specifier) = f.sources[f.next_source];
            (
                WalkView { current: Some(g), ..w },
                if specifier.contains('\0') {
                    StepView::Continue
                } else {
                    StepView::ResolveSource { module: f.module, id, specifier }
                },
            )
        } else if f.next < f.specifiers.len() {
            let g = FrameView { next: f.next + 1, ..f };
            let specifier = f.specifiers[f.next];
            (
                WalkView { current: Some(g), ..w },
                if specifier.contains('\0') {
                    StepView::Continue
                } else {
                    StepView::Resolve { module: f.module, specifier }
                },
            )
        } else {
            (WalkView { current: None, ..w }, StepView::Continue)
        },
        None => if w.stack.len() == 0 {
            (w, StepView::Done)
        } else {
            let m = w.stack.last();
            let rest = WalkView { stack: w.stack.drop_last(), ..w };
            if w.visited.contains(m) {
                (rest, StepView::Continue)
            } else {
                let seen = WalkView { visited: w.visited.push(m), ..rest };
                if states.dom().contains(m) {
                    (
                        WalkView { current: Some(fresh_frame(m, states[m])), ..seen },
                        StepView::Continue,
                    )
                } else {
                    (seen, StepView::Continue)
                }
            }
        },
    }
}

/// The walk after the embedder resolved a specifier: a known module is found.
pub open spec fn found(w: WalkView, states: Map<usize, ModuleState>, resolved: Option<usize>) -> WalkView {
    match resolved {
        Some(m) => if states.dom().contains(m) {
            WalkView { stack: w.stack.push(m), ..w }
        } else {
            w
        },
        None => w,
    }
}

/// The resolutions after the embedder resolved a specifier: it stands for the name of the module, if that
/// is a name, and another one.
pub open spec fn learned(
    w: WalkView,
    states: Map<usize, ModuleState>,
    resolutions: Seq<((Seq<char>, Seq<char>), Seq<char>)>,
    resolved: Option<usize>,
) -> Seq<((Seq<char>, Seq<char>), Seq<char>)> {
    match (w.current, resolved) {
        (Some(f), Some(m)) => if states.dom().contains(m) {
            let name = states[m].source_name@;
            let specifier = f.specifiers[f.next - 1];
            if name.len() > 0 && name != specifier {
                inserted(resolutions, (f.base, specifier), name)
            } else {
                resolutions
            }
        } else {
            resolutions
        },
        _ => resolutions,
    }
}

fn frame_of(module: usize, st: &ModuleState) -> (r: Frame)
    ensures
        r@ == fresh_frame(module, *st),
{
    let mut specifiers: Vec<String> = Vec::new();
    let mut i: usize = 0;
    while i < st.import_specifiers.len()
        invariant
            i <= st.import_specifiers.len(),
            strings(specifiers@) =~= specifiers_of(*st).take(i as int),
        decreases st.import_specifiers.len() - i,
    {
        let ghost done = strings(specifiers@);
        specifiers.push(st.import_specifiers[i].0.clone());
        assert(strings(specifiers@) =~= done.push(specifiers_of(*st)[i as int]));
        i += 1;
    }
    assert(specifiers_of(*st).take(i as int) =~= specifiers_of(*st));
    Frame {
        module,
        base: st.source_name.clone(),
        sources: copy_records(&st.source_imports),
        specifiers,
        next_source: 0,
        next: 0,
    }
}

fn is_among(v: &Vec<usize>, m: usize) -> (r: bool)
    ensures
        r == v@.contains(m),
{
    let mut i: usize = 0;
    while i < v.len()
        invariant
            i <= v.len(),
            forall|j: int| 0 <= j < i ==> v@[j] != m,
        decreases v.len() - i,
    {
        if v[i] == m {
            return true;
        }
        i += 1;
    }
    false
}

impl Walk {
    /// A walk from the module `root`.
    pub fn start(root: usize) -> (r: Walk)
        ensures
            r@ == (WalkView { visited: seq![], stack: seq![root], current: None }),
    {
        let mut stack: Vec<usize> = Vec::new();
        stack.push(root);
        let r = Walk { visited: Vec::new(), stack, current: None };
        assert(r@ =~= (WalkView { visited: seq![], stack: seq![root], current: None }));
        r
    }

    /// Takes one step.
    pub fn advance(&mut self, modules: &Modules, with_sources: bool) -> (r: Step)
        ensures
            (final(self)@, r@) == advanced(old(self)@, modules.states@, with_sources),
    {
        match &mut self.current {
            Some(f) => {
                if with_sources && f.next_source < f.sources.len() {
                    let i = f.next_source;
                    f.next_source = i + 1;
                    if has_nul(&f.sources[i].1) {
                        return Step::Continue;
                    }
                    return Step::ResolveSource {
                        module: f.module,
                        id: f.sources[i].0,
                        specifier: f.sources[i].1.clone(),
                    };
                }
                if f.next < f.specifiers.len() {
                    let i = f.next;
                    f.next = i + 1;
                    if has_nul(&f.specifiers[i]) {
                        return Step::Continue;
                    }
                    return Step::Resolve {
                        module: f.module,
                        specifier: f.specifiers[i].clone(),
                    };
                }
            },
            None => {
                match self.stack.pop() {
                    None => {
                        return Step::Done;
                    },
                    Some(m) => {
                        if is_among(&self.visited, m) {
                            return Step::Continue;
                        }
                        self.visited.push(m);
                        if let Some(st) = modules.states.get(m) {
                            self.current = Some(frame_of(m, st));
                        }
                        return Step::Continue;
                    },
                }
            },
        }
        self.current = None;
        Step::Continue
    }

    /// Takes the embedder's answer to the last step up.
    pub fn resolved(&mut self, modules: &mut Modules, resolved: Option<usize>)
        requires
            old(self)@.current matches Some(f) && 0 < f.next <= f.specifiers.len(),
        ensures
            final(self)@ == found(old(self)@, old(modules).states@, resolved),
            final(modules).resolutions@ == learned(
                old(self)@,
                old(modules).states@,
                old(modules).resolutions@,
                resolved,
            ),
            *final(modules) == (Modules {
                resolutions: final(modules).resolutions,
                ..*old(modules)
            }),
    {
        if let Some(m) = resolved {
            if let Some(f) = &self.current {
                if let Some(st) = modules.states.get(m) {
                    let specifier = &f.specifiers[f.next - 1];
                    let name = &st.source_name;
                    if !name.as_str().is_empty() && !is_text(&chars_of(name), specifier) {
                        modules.resolutions.record_resolved_specifier(&f.base, specifier, name);
                    }
                    self.stack.push(m);
                }
            }
        }
    }
}

/// The modules that a walk has come upon.
pub open spec fn come_upon(w: WalkView, m: usize) -> bool {
    w.visited.contains(m) || w.stack.contains(m)
}

/// No module is walked twice.
pub open spec fn walked_once(w: WalkView) -> bool {
    &&& w.visited.no_duplicates()
    &&& w.current matches Some(f) ==> w.visited.contains(f.module)
}

/// No step forgets a module that the walk has come upon, and none walks a module for a second time.
pub proof fn law_steps_forget_nothing(
    w: WalkView,
    states: Map<usize, ModuleState>,
    with_sources: bool,
    m: usize,
)
    requires
        walked_once(w),
    ensures
        walked_once(advanced(w, states, with_sources).0),
        come_upon(advanced(w, states, with_sources).0, m) == come_upon(w, m),
        w.current is None ==> (advanced(w, states, with_sources).0.current matches Some(f)
            ==> !w.visited.contains(f.module)),
{
    let n = advanced(w, states, with_sources).0;
    if w.current is None && w.stack.len() > 0 {
        let top = w.stack.last();
        let rest = w.stack.drop_last();
        assert(w.stack =~= rest.push(top));
        assert(w.stack.contains(m) == (rest.contains(m) || m == top)) by {
            if rest.contains(m) {
                let i = choose|i: int| 0 <= i < rest.len() && rest[i] == m;
                assert(w.stack[i] == m);
            }
            if m == top {
                assert(w.stack[w.stack.len() - 1] == m);
            }
            if w.stack.contains(m) {
                let i = choose|i: int| 0 <= i < w.stack.len() && w.stack[i] == m;
                if i < rest.len() {
                    assert(rest[i] == m);
                }
            }
        }
        let more = w.visited.push(top);
        assert(more.contains(m) == (w.visited.contains(m) || m == top)) by {
            if w.visited.contains(m) {
                let i = choose|i: int| 0 <= i < w.visited.len() && w.visited[i] == m;
                assert(more[i] == m);
            }
            if m == top {
                assert(more[w.visited.len() as int] == m);
            }
        }
        assert(more[w.visited.len() as int] == top);
    }
}

/// Once a walk is over, every known module that a specifier was resolved to has been walked.
pub proof fn law_walk_reaches_what_was_found(
    w: WalkView,
    states: Map<usize, ModuleState>,
    with_sources: bool,
    m: usize,
)
    requires
        come_upon(w, m),
    ensures
        advanced(w, states, with_sources).1 is Done ==> w.visited.contains(m),
        forall|k: usize| #[trigger]
            states.dom().contains(k) ==> come_upon(found(w, states, Some(k)), k),
        forall|r: Option<usize>| come_upon(#[trigger] found(w, states, r), m),
{
    assert forall|k: usize| #[trigger] states.dom().contains(k) implies come_upon(
        found(w, states, Some(k)),
        k,
    ) by {
        let s = w.stack.push(k);
        assert(s[w.stack.len() as int] == k);
    }
    assert forall|r: Option<usize>| come_upon(#[trigger] found(w, states, r), m) by {
        if w.stack.contains(m) {
            let i = choose|i: int| 0 <= i < w.stack.len() && w.stack[i] == m;
            if let Some(k) = r {
                assert(w.stack.push(k)[i] == m);
            }
        }
    }
}

/// What a walk learns of a specifier is what is looked up of it.
pub proof fn law_learned_is_looked_up(
    w: WalkView,
    states: Map<usize, ModuleState>,
    resolutions: Seq<((Seq<char>, Seq<char>), Seq<char>)>,
    m: usize,
)
    requires
        w.current is Some,
        states.dom().contains(m),
        states[m].source_name@.len() > 0,
        states[m].source_name@ != w.current->0.specifiers[w.current->0.next - 1],
    ensures
        value_of(
            learned(w, states, resolutions, Some(m)),
            (w.current->0.base, w.current->0.specifiers[w.current->0.next - 1]),
        ) == Some(states[m].source_name@),
{
    let f = w.current->0;
    let key = (f.base, f.specifiers[f.next - 1]);
    crate::table::law_insert_then_look_up(resolutions, key, states[m].source_name@, key);
}

/// The source-phase imports of a module come first, where they are asked for, and then its specifiers, each in
/// order; one that holds a NUL is passed over.
pub proof fn law_what_is_resolved_next(w: WalkView, states: Map<usize, ModuleState>, f: FrameView)
    requires
        w.current == Some(f),
        0 <= f.next_source && 0 <= f.next,
    ensures
        f.next_source < f.sources.len() ==> {
            let (v, step) = advanced(w, states, true);
            &&& v.current == Some(FrameView { next_source: f.next_source + 1, ..f })
            &&& v.stack == w.stack && v.visited == w.visited
            &&& !f.sources[f.next_source].1.contains('\0') ==> step == (StepView::ResolveSource {
                module: f.module,
                id: f.sources[f.next_source].0,
                specifier: f.sources[f.next_source].1,
            })
            &&& f.sources[f.next_source].1.contains('\0') ==> step == StepView::Continue
        },
        f.next < f.specifiers.len() ==> {
            let (v, step) = advanced(w, states, false);
            &&& v.current == Some(FrameView { next: f.next + 1, ..f })
            &&& v.stack == w.stack && v.visited == w.visited
            &&& !f.specifiers[f.next].contains('\0') ==> step == (StepView::Resolve {
                module: f.module,
                specifier: f.specifiers[f.next],
            })
            &&& f.specifiers[f.next].contains('\0') ==> step == StepView::Continue
        },
        f.next_source >= f.sources.len() && f.next < f.specifiers.len() ==> advanced(w, states, true)
            == advanced(w, states, false),
        f.next_source >= f.sources.len() && f.next >= f.specifiers.len() ==> advanced(w, states, true)
            == (WalkView { current: None, ..w }, StepView::Continue),
{
}

/// The module that was found last is walked next, unless it was walked before; nothing is left at the end.
pub proof fn law_which_module_is_walked_next(w: WalkView, states: Map<usize, ModuleState>, m: usize)
    requires
        w.current is None,
    ensures
        w.stack.len() == 0 ==> advanced(w, states, true) == (w, StepView::Done),
        w.stack.len() > 0 ==> advanced(w, states, true).1 == StepView::Continue && advanced(
            w,
            states,
            true,
        ).0.stack == w.stack.drop_last(),
        w.stack.len() > 0 && w.stack.last() == m && !w.visited.contains(m) ==> {
            let v = advanced(w, states, true).0;
            &&& v.visited == w.visited.push(m)
            &&& states.dom().contains(m) ==> {
                &&& v.current matches Some(f)
                &&& f.module == m && f.base == states[m].source_name@
                &&& f.next == 0 && f.next_source == 0
                &&& f.specifiers.len() == states[m].import_specifiers@.len()
                &&& f.sources.len() == states[m].source_imports@.len()
            }
            &&& !states.dom().contains(m) ==> v.current is None
        },
        w.stack.len() > 0 && w.visited.contains(w.stack.last()) ==> advanced(w, states, true).0.visited
            == w.visited && advanced(w, states, true).0.current is None,
{
}

/// A module that specifiers lead to is walked later if it is known; what is not resolved changes nothing.
pub proof fn law_found_modules(w: WalkView, states: Map<usize, ModuleState>, m: usize)
    ensures
        found(w, states, None) == w,
        states.dom().contains(m) ==> found(w, states, Some(m)).stack == w.stack.push(m),
        !states.dom().contains(m) ==> found(w, states, Some(m)) == w,
{
}

/// Nothing is learned of a module that is unknown, has no name, or is named as the specifier.
pub proof fn law_nothing_to_learn(
    w: WalkView,
    states: Map<usize, ModuleState>,
    resolutions: Seq<((Seq<char>, Seq<char>), Seq<char>)>,
    m: usize,
)
    ensures
        learned(w, states, resolutions, None) == resolutions,
        !states.dom().contains(m) ==> learned(w, states, resolutions, Some(m)) == resolutions,
        states.dom().contains(m) && states[m].source_name@.len() == 0 ==> learned(
            w,
            states,
            resolutions,
            Some(m),
        ) == resolutions,
        w.current matches Some(f) ==> states.dom().contains(m) && states[m].source_name@
            == f.specifiers[f.next - 1] ==> learned(w, states, resolutions, Some(m)) == resolutions,
{
}

} // verus!
