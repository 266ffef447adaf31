//! Evaluating a module: its dependencies are evaluated first, each once, and a cycle is cut where it
//! comes back to a module that is under way.
//!
//! Running code and making promises is the engine's part; the functions here decide what is run next,
//! which promises a module waits for, and what its status becomes.

use crate::jsc::instantiate::{graph_with_status, set_status};
use crate::jsc::module::{graph_async, is_graph_async, ModuleRecord};
use crate::status::ModuleStatus;
use crate::text::strings;
use vstd::prelude::*;

verus! {

/// What the evaluation of a module comes to.
#[derive(Clone, Copy, PartialEq, Eq, Structural, Debug)]
pub enum Completion {
    /// A promise that is resolved.
    Resolved,
    /// A promise that running the module gave.
    Promise(usize),
    /// A promise that is rejected with an exception.
    Rejected(usize),
}

/// What a module under way waits for.
#[derive(Clone, Copy, PartialEq, Eq, Structural, Debug)]
pub enum Stage {
    /// The engine's own evaluation of its record.
    Native,
    /// Its next dependency.
    Deps,
    /// The steps that the embedder provides.
    Steps,
    /// The end of its script.
    Source,
    /// The promise that it comes to.
    Settle(Completion),
}

/// A module under way.
pub struct Frame {
    /// Its number.
    pub module: usize,
    /// How many of its dependencies have been taken up.
    pub next: usize,
    /// The promises that it has to wait for.
    pub promises: Vec<usize>,
    /// Whether the module that needs it waits for its promise.
    pub awaited: bool,
    /// What it waits for.
    pub stage: Stage,
}

/// What is to be done next.
#[derive(Clone, Copy, PartialEq, Eq, Structural, Debug)]
pub enum Step {
    /// Let the engine evaluate its own record of a module.
    RunNative(usize),
    /// Register the namespaces that a module needs, then run the steps that the embedder provides.
    RunSteps(usize),
    /// Register the namespaces that a module needs, then run its script, as an asynchronous function
    /// or not, handing it the promises that it waits for.
    RunSource { module: usize, is_async: bool },
    /// Make the promise that a module comes to.
    Settle(Completion),
    /// Go on.
    Continue,
}

/// A frame as plain values.
#[verifier::ext_equal]
pub struct FrameModel {
    pub module: usize,
    pub next: int,
    pub promises: Seq<usize>,
    pub awaited: bool,
    pub stage: Stage,
}

impl View for Frame {
    type V = FrameModel;

    open spec fn view(&self) -> FrameModel {
        FrameModel {
            module: self.module,
            next: self.next as int,
            promises: self.promises@,
            awaited: self.awaited,
            stage: self.stage,
        }
    }
}

/// The frames as plain values.
pub open spec fn models(frames: Seq<Frame>) -> Seq<FrameModel> {
    Seq::new(frames.len(), |i: int| frames[i]@)
}

/// The state of an evaluation.
#[verifier::ext_equal]
pub struct State {
    /// The graph.
    pub graph: Seq<ModuleRecord>,
    /// The modules under way, the innermost last.
    pub frames: Seq<FrameModel>,
    /// The modules whose code runs, the innermost last.
    pub running: Seq<usize>,
}

/// An evaluation.
pub struct Evaluation {
    /// The modules under way, the innermost last.
    pub frames: Vec<Frame>,
    /// The modules whose code runs, the innermost last.
    pub running: Vec<usize>,
}

impl Evaluation {
    /// The state of the evaluation over the graph `g`.
    pub open spec fn state(&self, g: Seq<ModuleRecord>) -> State {
        State { graph: g, frames: models(self.frames@), running: self.running@ }
    }
}

/// A module under way waits for code to run or for dependencies.
pub open spec fn is_busy(stage: Stage) -> bool {
    !(stage is Settle)
}

/// The modules under way are known. Those that have not come to a promise are marked as evaluating
/// and differ from each other; all but the innermost wait for a dependency.
pub open spec fn sound(s: State) -> bool {
    &&& forall|i: int|
        0 <= i < s.frames.len() ==> {
            let f = #[trigger] s.frames[i];
            &&& f.module < s.graph.len()
            &&& 0 <= f.next <= s.graph[f.module as int].dependencies.len()
            &&& is_busy(f.stage) ==> s.graph[f.module as int].status == ModuleStatus::Evaluating
        }
    &&& forall|i: int|
        0 <= i < s.frames.len() - 1 ==> (#[trigger] s.frames[i]).stage == Stage::Deps
    &&& forall|i: int, j: int|
        0 <= i < j < s.frames.len() && is_busy(s.frames[i].stage) && is_busy(s.frames[j].stage)
            ==> (#[trigger] s.frames[i]).module != (#[trigger] s.frames[j]).module
}

/// A module that is taken up afresh.
pub open spec fn new_frame(id: usize, awaited: bool, stage: Stage) -> FrameModel {
    FrameModel { module: id, next: 0, promises: seq![], awaited, stage }
}

/// The state after the module `id` is taken up. An unknown module gives nothing; one that was
/// evaluated comes to a resolved promise at once; the engine evaluates its own record unless the
/// embedder provides steps; any other waits for its dependencies.
pub open spec fn entered(s: State, id: usize, awaited: bool) -> State {
    if id >= s.graph.len() {
        s
    } else if s.graph[id as int].status == ModuleStatus::Evaluated {
        State {
            frames: s.frames.push(new_frame(id, awaited, Stage::Settle(Completion::Resolved))),
            ..s
        }
    } else {
        let g = graph_with_status(s.graph, id as int, ModuleStatus::Evaluating);
        if s.graph[id as int].native && !s.graph[id as int].has_steps {
            State {
                graph: g,
                frames: s.frames.push(new_frame(id, awaited, Stage::Native)),
                running: s.running.push(id),
            }
        } else {
            State { graph: g, frames: s.frames.push(new_frame(id, awaited, Stage::Deps)), ..s }
        }
    }
}

/// A dependency is passed over: it is under way already, so that a cycle is cut, or it was evaluated
/// and nothing in its graph awaits.
pub open spec fn passed_over(g: Seq<ModuleRecord>, d: usize) -> bool {
    d < g.len() && (g[d as int].status == ModuleStatus::Evaluating || (g[d as int].status
        == ModuleStatus::Evaluated && !graph_async(g, d)))
}

/// The state with the innermost module waiting for something else.
pub open spec fn at_stage(s: State, stage: Stage) -> State {
    let k = s.frames.len() - 1;
    State { frames: s.frames.update(k, FrameModel { stage, ..s.frames[k] }), ..s }
}

/// The state after the innermost module has taken up its next dependency.
pub open spec fn dependency_taken(s: State) -> State {
    let k = s.frames.len() - 1;
    let f = s.frames[k];
    let d = s.graph[f.module as int].dependencies@[f.next];
    let t = State { frames: s.frames.update(k, FrameModel { next: f.next + 1, ..f }), ..s };
    if passed_over(s.graph, d) {
        t
    } else {
        entered(t, d, graph_async(s.graph, d))
    }
}

/// The step that a state asks for, and the state once it has been asked for.
pub open spec fn next_step(s: State) -> (State, Step) {
    let k = s.frames.len() - 1;
    let f = s.frames[k];
    let m = s.graph[f.module as int];
    match f.stage {
        Stage::Native => (s, Step::RunNative(f.module)),
        Stage::Steps => (s, Step::RunSteps(f.module)),
        Stage::Source => (
            s,
            Step::RunSource {
                module: f.module,
                is_async: m.is_async || f.promises.len() > 0,
            },
        ),
        Stage::Settle(c) => (s, Step::Settle(c)),
        Stage::Deps => if f.next < m.dependencies.len() {
            (dependency_taken(s), Step::Continue)
        } else if m.has_steps {
            (at_stage(s, Stage::Steps), Step::Continue)
        } else if m.source is Some {
            (
                State { running: s.running.push(f.module), ..at_stage(s, Stage::Source) },
                Step::Continue,
            )
        } else {
            (
                State {
                    graph: graph_with_status(s.graph, f.module as int, ModuleStatus::Evaluated),
                    ..at_stage(s, Stage::Settle(Completion::Resolved))
                },
                Step::Continue,
            )
        },
    }
}

/// The list without its last `id`.
pub open spec fn without_last(list: Seq<usize>, id: usize) -> Seq<usize>
    decreases list.len(),
{
    if list.len() == 0 {
        list
    } else if list.last() == id {
        list.drop_last()
    } else {
        without_last(list.drop_last(), id).push(list.last())
    }
}

/// The state once the innermost module has run, with status `status`, and comes to `c`.
pub open spec fn ran(s: State, status: ModuleStatus, c: Completion) -> State {
    let f = s.frames.last();
    State {
        graph: graph_with_status(s.graph, f.module as int, status),
        frames: at_stage(s, Stage::Settle(c)).frames,
        running: if f.stage is Steps {
            s.running
        } else {
            without_last(s.running, f.module)
        },
    }
}

/// What running a module without an exception comes to: the promise that it gave, if any.
pub open spec fn promised(p: Option<usize>) -> Completion {
    match p {
        Some(h) => Completion::Promise(h),
        None => Completion::Resolved,
    }
}

/// The state once the innermost module's promise has been made: the module that needs it waits for
/// the promise if its graph awaits anywhere.
pub open spec fn settled(s: State, promise: Option<usize>) -> State {
    let k = s.frames.len() - 1;
    let f = s.frames[k];
    let rest = s.frames.drop_last();
    if k > 0 && f.awaited && promise is Some {
        let p = rest[k - 1];
        State {
            frames: rest.update(
                k - 1,
                FrameModel { promises: p.promises.push(promise->0), ..p },
            ),
            ..s
        }
    } else {
        State { frames: rest, ..s }
    }
}

/// The position of the last `id` in the list.
fn rposition(list: &Vec<usize>, id: usize) -> (r: Option<usize>)
    ensures
        match r {
            Some(k) => k < list@.len() && without_last(list@, id) == list@.remove(k as int),
            None => without_last(list@, id) == list@,
        },
{
    let mut n: usize = list.len();
    assert(list@.take(n as int) =~= list@);
    assert(list@.skip(n as int) =~= seq![]);
    while n > 0
        invariant
            n <= list.len(),
            without_last(list@, id) =~= without_last(list@.take(n as int), id) + list@.skip(
                n as int,
            ),
        decreases n,
    {
        let ghost head = list@.take(n as int);
        assert(head.last() == list@[n - 1]);
        assert(head.drop_last() =~= list@.take(n - 1));
        assert(seq![list@[n - 1]] + list@.skip(n as int) =~= list@.skip(n - 1));
        if list[n - 1] == id {
            assert(list@.take(n - 1) + list@.skip(n as int) =~= list@.remove(n - 1));
            return Some(n - 1);
        }
        n -= 1;
    }
    assert(list@.take(0) =~= seq![]);
    assert(list@.skip(0) =~= list@);
    None
}

impl Evaluation {
    /// No module is under way.
    pub fn new() -> (r: Evaluation)
        ensures
            forall|g: Seq<ModuleRecord>| #[trigger]
                r.state(g) == (State { graph: g, frames: seq![], running: seq![] }),
    {
        let r = Evaluation { frames: Vec::new(), running: Vec::new() };
        assert(models(r.frames@) =~= seq![]);
        r
    }

    /// Takes up the module `id`.
    pub fn enter(&mut self, g: &mut Vec<ModuleRecord>, id: usize, awaited: bool)
        requires
            sound(old(self).state(old(g)@)),
            old(self).frames@.len() > 0 ==> old(self).frames@.last().stage == Stage::Deps,
            old(self).frames@.len() > 0 && id < old(g)@.len() ==> old(g)@[id as int].status
                != ModuleStatus::Evaluating,
        ensures
            final(self).state(final(g)@) == entered(old(self).state(old(g)@), id, awaited),
            sound(final(self).state(final(g)@)),
    {
        let ghost s = self.state(g@);
        assert(self.frames@.len() > 0 ==> s.frames.last() == self.frames@.last()@);
        if id < g.len() {
            let stage = if g[id].status == ModuleStatus::Evaluated {
                Stage::Settle(Completion::Resolved)
            } else if g[id].native && !g[id].has_steps {
                Stage::Native
            } else {
                Stage::Deps
            };
            if g[id].status != ModuleStatus::Evaluated {
                set_status(g, id, ModuleStatus::Evaluating);
            }
            if let Stage::Native = stage {
                self.running.push(id);
            }
            self.frames.push(Frame { module: id, next: 0, promises: Vec::new(), awaited, stage });
            assert(models(self.frames@) =~= s.frames.push(new_frame(id, awaited, stage)));
        }
        assert(self.state(g@) =~= entered(s, id, awaited));
    }

    /// What is to be done next.
    #[verifier::rlimit(40)]
    pub fn advance(&mut self, g: &mut Vec<ModuleRecord>) -> (r: Step)
        requires
            sound(old(self).state(old(g)@)),
            old(self).frames@.len() > 0,
        ensures
            (final(self).state(final(g)@), r) == next_step(old(self).state(old(g)@)),
            sound(final(self).state(final(g)@)),
    {
        let ghost s = self.state(g@);
        let k = self.frames.len() - 1;
        assert(s.frames[k as int] == self.frames@[k as int]@);
        assert(s.frames.last() == s.frames[k as int]);
        let m = self.frames[k].module;
        match self.frames[k].stage {
            Stage::Native => Step::RunNative(m),
            Stage::Steps => Step::RunSteps(m),
            Stage::Source => Step::RunSource {
                module: m,
                is_async: g[m].is_async || self.frames[k].promises.len() > 0,
            },
            Stage::Settle(c) => Step::Settle(c),
            Stage::Deps => {
                let next = self.frames[k].next;
                if next < g[m].dependencies.len() {
                    let d = g[m].dependencies[next];
                    self.frames[k].next = next + 1;
                    let ghost t = self.state(g@);
                    assert(t =~= State {
                        frames: s.frames.update(
                            k as int,
                            FrameModel { next: next + 1, ..s.frames[k as int] },
                        ),
                        ..s
                    });
                    let is_async = is_graph_async(g, d);
                    let skip = d < g.len() && (g[d].status == ModuleStatus::Evaluating || (
                    g[d].status == ModuleStatus::Evaluated && !is_async));
                    if !skip {
                        self.enter(g, d, is_async);
                    }
                } else if g[m].has_steps {
                    self.frames[k].stage = Stage::Steps;
                    assert(self.state(g@) =~= at_stage(s, Stage::Steps));
                } else if g[m].source.is_some() {
                    self.frames[k].stage = Stage::Source;
                    self.running.push(m);
                    assert(models(self.frames@) =~= at_stage(s, Stage::Source).frames);
                } else {
                    self.frames[k].stage = Stage::Settle(Completion::Resolved);
                    set_status(g, m, ModuleStatus::Evaluated);
                    assert(models(self.frames@) =~= at_stage(
                        s,
                        Stage::Settle(Completion::Resolved),
                    ).frames);
                }
                assert(self.state(g@) =~= next_step(s).0);
                Step::Continue
            },
        }
    }

    /// The innermost module has run and comes to `c`.
    fn finish(&mut self, g: &mut Vec<ModuleRecord>, status: ModuleStatus, c: Completion)
        requires
            sound(old(self).state(old(g)@)),
            old(self).frames@.len() > 0,
            is_busy(old(self).frames@.last().stage),
        ensures
            final(self).state(final(g)@) == ran(old(self).state(old(g)@), status, c),
            sound(final(self).state(final(g)@)),
    {
        let ghost s = self.state(g@);
        let k = self.frames.len() - 1;
        assert(s.frames[k as int] == self.frames@[k as int]@);
        let m = self.frames[k].module;
        let in_steps = match self.frames[k].stage {
            Stage::Steps => true,
            _ => false,
        };
        if !in_steps {
            match rposition(&self.running, m) {
                Some(p) => {
                    self.running.remove(p);
                },
                None => {},
            }
        }
        self.frames[k].stage = Stage::Settle(c);
        set_status(g, m, status);
        assert(models(self.frames@) =~= at_stage(s, Stage::Settle(c)).frames);
        assert(self.state(g@) =~= ran(s, status, c));
    }

    /// The engine evaluated its own record; `result` is the promise that it gave, if it is an object.
    pub fn native_done(&mut self, g: &mut Vec<ModuleRecord>, result: Option<usize>)
        requires
            sound(old(self).state(old(g)@)),
            old(self).frames@.len() > 0,
            old(self).frames@.last().stage == Stage::Native,
        ensures
            final(self).state(final(g)@) == ran(
                old(self).state(old(g)@),
                ModuleStatus::Evaluated,
                promised(result),
            ),
            sound(final(self).state(final(g)@)),
    {
        let c = match result {
            Some(h) => Completion::Promise(h),
            None => Completion::Resolved,
        };
        self.finish(g, ModuleStatus::Evaluated, c);
    }

    /// The embedder's steps ran; `promise` is the promise that they gave, if any.
    pub fn steps_done(&mut self, g: &mut Vec<ModuleRecord>, promise: Option<usize>)
        requires
            sound(old(self).state(old(g)@)),
            old(self).frames@.len() > 0,
            old(self).frames@.last().stage == Stage::Steps,
        ensures
            final(self).state(final(g)@) == ran(
                old(self).state(old(g)@),
                ModuleStatus::Evaluated,
                promised(promise),
            ),
            sound(final(self).state(final(g)@)),
    {
        let c = match promise {
            Some(h) => Completion::Promise(h),
            None => Completion::Resolved,
        };
        self.finish(g, ModuleStatus::Evaluated, c);
    }

    /// The script ran: it gave a promise or nothing, or it threw an exception.
    pub fn source_done(&mut self, g: &mut Vec<ModuleRecord>, result: Result<Option<usize>, usize>)
        requires
            sound(old(self).state(old(g)@)),
            old(self).frames@.len() > 0,
            old(self).frames@.last().stage == Stage::Source,
        ensures
            final(self).state(final(g)@) == (match result {
                Ok(p) => ran(old(self).state(old(g)@), ModuleStatus::Evaluated, promised(p)),
                Err(e) => ran(
                    old(self).state(old(g)@),
                    ModuleStatus::Errored,
                    Completion::Rejected(e),
                ),
            }),
            sound(final(self).state(final(g)@)),
    {
        match result {
            Ok(p) => {
                let c = match p {
                    Some(h) => Completion::Promise(h),
                    None => Completion::Resolved,
                };
                self.finish(g, ModuleStatus::Evaluated, c);
            },
            Err(e) => {
                self.finish(g, ModuleStatus::Errored, Completion::Rejected(e));
            },
        }
    }

    /// The promise of the innermost module was made, or could not be. The result is the promise once
    /// no module is under way any more.
    pub fn settle(&mut self, g: &Vec<ModuleRecord>, promise: Option<usize>) -> (r: Option<
        Option<usize>,
    >)
        requires
            sound(old(self).state(g@)),
            old(self).frames@.len() > 0,
            old(self).frames@.last().stage is Settle,
        ensures
            final(self).state(g@) == settled(old(self).state(g@), promise),
            sound(final(self).state(g@)),
            r == if old(self).frames@.len() == 1 {
                Some(promise)
            } else {
                None
            },
    {
        let ghost s = self.state(g@);
        let k = self.frames.len() - 1;
        assert(s.frames[k as int] == self.frames@[k as int]@);
        let f = self.frames.pop().unwrap();
        assert(models(self.frames@) =~= s.frames.drop_last());
        if k == 0 {
            assert(self.state(g@) =~= settled(s, promise));
            return Some(promise);
        }
        if f.awaited {
            if let Some(h) = promise {
                self.frames[k - 1].promises.push(h);
                assert(models(self.frames@) =~= settled(s, promise).frames);
            }
        }
        assert(self.state(g@) =~= settled(s, promise));
        None
    }
}

/// The namespaces that are registered before a module runs: its own under its address, unless that is
/// empty, and those of its dependencies under its specifiers, first with first, unless a specifier is
/// empty or the dependency has no namespace.
pub open spec fn namespaces(g: Seq<ModuleRecord>, id: usize) -> Seq<(Seq<char>, usize)> {
    let m = g[id as int];
    let own: Seq<(Seq<char>, usize)> = if m.specifier@.len() > 0 {
        seq![(m.specifier@, id)]
    } else {
        seq![]
    };
    let n = if m.import_specifiers@.len() < m.dependencies@.len() {
        m.import_specifiers@.len()
    } else {
        m.dependencies@.len()
    };
    own + dependency_namespaces(g, strings(m.import_specifiers@), m.dependencies@, n as int)
}

/// The namespaces of the first `n` dependencies.
pub open spec fn dependency_namespaces(
    g: Seq<ModuleRecord>,
    specifiers: Seq<Seq<char>>,
    deps: Seq<usize>,
    n: int,
) -> Seq<(Seq<char>, usize)>
    decreases n,
{
    if n <= 0 {
        seq![]
    } else {
        let rest = dependency_namespaces(g, specifiers, deps, n - 1);
        let d = deps[n - 1];
        if specifiers[n - 1].len() > 0 && d < g.len() && g[d as int].has_namespace {
            rest.push((specifiers[n - 1], d))
        } else {
            rest
        }
    }
}

/// The views of a list of registrations.
pub open spec fn registration_views(v: Seq<(String, usize)>) -> Seq<(Seq<char>, usize)> {
    Seq::new(v.len(), |i: int| (v[i].0@, v[i].1))
}

/// Whether the string has no characters.
fn is_empty(s: &String) -> (r: bool)
    ensures
        r == (s@.len() == 0),
{
    s.as_str().is_empty()
}

/// The namespaces to register before the module `id` runs: a name and the module whose namespace it
/// stands for.
pub fn registrations(g: &Vec<ModuleRecord>, id: usize) -> (r: Vec<(String, usize)>)
    requires
        id < g@.len(),
    ensures
        registration_views(r@) == namespaces(g@, id),
{
    let mut out: Vec<(String, usize)> = Vec::new();
    if !is_empty(&g[id].specifier) {
        out.push((g[id].specifier.clone(), id));
    }
    let ghost own = registration_views(out@);
    let ghost m = g@[id as int];
    assert(own =~= if m.specifier@.len() > 0 {
        seq![(m.specifier@, id)]
    } else {
        seq![]
    });
    let n = if g[id].import_specifiers.len() < g[id].dependencies.len() {
        g[id].import_specifiers.len()
    } else {
        g[id].dependencies.len()
    };
    let mut i: usize = 0;
    while i < n
        invariant
            id < g@.len(),
            m == g@[id as int],
            i <= n,
            n <= m.import_specifiers@.len(),
            n <= m.dependencies@.len(),
            registration_views(out@) =~= own + dependency_namespaces(
                g@,
                strings(m.import_specifiers@),
                m.dependencies@,
                i as int,
            ),
        decreases n - i,
    {
        let ghost before = registration_views(out@);
        let d = g[id].dependencies[i];
        if !is_empty(&g[id].import_specifiers[i]) && d < g.len() && g[d].has_namespace {
            out.push((g[id].import_specifiers[i].clone(), d));
            assert(registration_views(out@) =~= before.push(
                (strings(m.import_specifiers@)[i as int], d),
            ));
        }
        i += 1;
    }
    out
}

/// A module has been taken up: it is under way, or it has run, with success or without.
pub open spec fn begun(status: ModuleStatus) -> bool {
    status == ModuleStatus::Evaluating || status == ModuleStatus::Evaluated || status
        == ModuleStatus::Errored
}

/// The first `n` of these dependencies have been taken up, as far as they are known.
pub open spec fn taken_up(g: Seq<ModuleRecord>, deps: Seq<usize>, n: int) -> bool {
    forall|j: int| 0 <= j < n && (#[trigger] deps[j]) < g.len() ==> begun(g[deps[j] as int].status)
}

/// The dependencies that the modules under way have counted have been taken up, and a module whose code
/// runs has counted all of them.
pub open spec fn orderly(s: State) -> bool {
    forall|i: int|
        0 <= i < s.frames.len() ==> {
            let f = #[trigger] s.frames[i];
            let deps = s.graph[f.module as int].dependencies@;
            &&& taken_up(s.graph, deps, f.next)
            &&& f.stage == Stage::Steps || f.stage == Stage::Source ==> f.next == deps.len()
        }
}

/// A change of one status to one of a module that has been taken up keeps what has been taken up.
proof fn lemma_taken_up(g: Seq<ModuleRecord>, id: int, status: ModuleStatus)
    requires
        0 <= id < g.len(),
        begun(status),
    ensures
        forall|i: int|
            0 <= i < g.len() ==> (#[trigger] graph_with_status(g, id, status)[i]).dependencies
                == g[i].dependencies,
        forall|deps: Seq<usize>, n: int| #[trigger]
            taken_up(g, deps, n) ==> taken_up(graph_with_status(g, id, status), deps, n),
{
    let h = graph_with_status(g, id, status);
    assert forall|deps: Seq<usize>, n: int| #[trigger] taken_up(g, deps, n) implies taken_up(
        h,
        deps,
        n,
    ) by {
        assert forall|j: int| 0 <= j < n && (#[trigger] deps[j]) < h.len() implies begun(
            h[deps[j] as int].status,
        ) by {
            assert(begun(g[deps[j] as int].status));
        }
    }
}

/// Taking up a module keeps what has been taken up.
pub proof fn law_taking_up_is_orderly(s: State, id: usize, awaited: bool)
    requires
        orderly(s),
        forall|i: int| 0 <= i < s.frames.len() ==> (#[trigger] s.frames[i]).module < s.graph.len(),
    ensures
        orderly(entered(s, id, awaited)),
        id < s.graph.len() ==> begun(entered(s, id, awaited).graph[id as int].status),
{
    if id < s.graph.len() {
        lemma_taken_up(s.graph, id as int, ModuleStatus::Evaluating);
        let t = entered(s, id, awaited);
        assert forall|i: int| 0 <= i < t.frames.len() implies {
            let f = #[trigger] t.frames[i];
            let deps = t.graph[f.module as int].dependencies@;
            &&& taken_up(t.graph, deps, f.next)
            &&& f.stage == Stage::Steps || f.stage == Stage::Source ==> f.next == deps.len()
        } by {
            if i < s.frames.len() {
                assert(t.frames[i] == s.frames[i]);
                let deps = s.graph[s.frames[i].module as int].dependencies@;
                assert(taken_up(s.graph, deps, s.frames[i].next));
            }
        }
    }
}

/// Dependencies come first: when a module's code is to run, each dependency that is known has run, or is
/// under way because it depends on the module in turn. Every step keeps what this rests on.
pub proof fn law_dependencies_come_first(s: State)
    requires
        sound(s),
        orderly(s),
        s.frames.len() > 0,
    ensures
        orderly(next_step(s).0),
        forall|status: ModuleStatus, c: Completion|
            begun(status) ==> orderly(#[trigger] ran(s, status, c)),
        forall|p: Option<usize>| orderly(#[trigger] settled(s, p)),
        (next_step(s).1 is RunSource || next_step(s).1 is RunSteps) ==> {
            let deps = s.graph[s.frames.last().module as int].dependencies@;
            taken_up(s.graph, deps, deps.len() as int)
        },
{
    let k = s.frames.len() - 1;
    let f = s.frames[k];
    let m = f.module as int;
    let t = next_step(s).0;
    lemma_taken_up(s.graph, m, ModuleStatus::Evaluated);
    if f.stage == Stage::Deps && f.next < s.graph[m].dependencies.len() {
        let d = s.graph[m].dependencies@[f.next];
        let u = State { frames: s.frames.update(k, FrameModel { next: f.next + 1, ..f }), ..s };
        if passed_over(s.graph, d) {
            assert(taken_up(s.graph, s.graph[m].dependencies@, f.next));
            assert forall|i: int| 0 <= i < t.frames.len() implies {
                let h = #[trigger] t.frames[i];
                let deps = t.graph[h.module as int].dependencies@;
                &&& taken_up(t.graph, deps, h.next)
                &&& h.stage == Stage::Steps || h.stage == Stage::Source ==> h.next == deps.len()
            } by {
                let g = s.frames[i];
                assert(taken_up(s.graph, s.graph[g.module as int].dependencies@, g.next));
            }
        } else {
            let e = entered(u, d, graph_async(s.graph, d));
            assert forall|i: int| 0 <= i < e.frames.len() implies {
                let h = #[trigger] e.frames[i];
                let deps = e.graph[h.module as int].dependencies@;
                &&& taken_up(e.graph, deps, h.next)
                &&& h.stage == Stage::Steps || h.stage == Stage::Source ==> h.next == deps.len()
            } by {
                if i <= k {
                    let g = s.frames[i];
                    let deps = s.graph[g.module as int].dependencies@;
                    assert(taken_up(s.graph, deps, g.next));
                    if d < s.graph.len() {
                        lemma_taken_up(s.graph, d as int, ModuleStatus::Evaluating);
                    }
                    assert(taken_up(e.graph, deps, g.next));
                }
            }
        }
    } else if f.stage == Stage::Deps {
        assert forall|i: int| 0 <= i < t.frames.len() implies {
            let h = #[trigger] t.frames[i];
            let deps = t.graph[h.module as int].dependencies@;
            &&& taken_up(t.graph, deps, h.next)
            &&& h.stage == Stage::Steps || h.stage == Stage::Source ==> h.next == deps.len()
        } by {
            let g = s.frames[i];
            assert(taken_up(s.graph, s.graph[g.module as int].dependencies@, g.next));
        }
    }
    assert forall|status: ModuleStatus, c: Completion| begun(status) implies orderly(
        #[trigger] ran(s, status, c),
    ) by {
        lemma_taken_up(s.graph, m, status);
        let r = ran(s, status, c);
        assert forall|i: int| 0 <= i < r.frames.len() implies {
            let h = #[trigger] r.frames[i];
            let deps = r.graph[h.module as int].dependencies@;
            &&& taken_up(r.graph, deps, h.next)
            &&& h.stage == Stage::Steps || h.stage == Stage::Source ==> h.next == deps.len()
        } by {
            let g = s.frames[i];
            assert(taken_up(s.graph, s.graph[g.module as int].dependencies@, g.next));
        }
    }
    assert forall|p: Option<usize>| orderly(#[trigger] settled(s, p)) by {
        let r = settled(s, p);
        assert forall|i: int| 0 <= i < r.frames.len() implies {
            let h = #[trigger] r.frames[i];
            let deps = r.graph[h.module as int].dependencies@;
            &&& taken_up(r.graph, deps, h.next)
            &&& h.stage == Stage::Steps || h.stage == Stage::Source ==> h.next == deps.len()
        } by {
            let g = s.frames[i];
            assert(taken_up(s.graph, s.graph[g.module as int].dependencies@, g.next));
        }
    }
}

/// A module that was evaluated stays evaluated, whatever step is taken.
pub proof fn law_evaluated_stays_evaluated(s: State, i: int)
    requires
        sound(s),
        s.frames.len() > 0,
        0 <= i < s.graph.len(),
        s.graph[i].status == ModuleStatus::Evaluated,
    ensures
        next_step(s).0.graph[i].status == ModuleStatus::Evaluated,
        is_busy(s.frames.last().stage) ==> forall|status: ModuleStatus, c: Completion|
            #[trigger] ran(s, status, c).graph[i].status == ModuleStatus::Evaluated,
        forall|p: Option<usize>| #[trigger] settled(s, p).graph[i].status
            == ModuleStatus::Evaluated,
{
}

/// A step never takes up a module that is under way: no module runs inside itself.
pub proof fn law_no_module_runs_inside_itself(s: State, i: int)
    requires
        sound(s),
        s.frames.len() > 0,
        0 <= i < s.frames.len(),
        next_step(s).0.frames.len() > s.frames.len(),
        is_busy(s.frames[i].stage),
    ensures
        next_step(s).0.frames.last().module != s.frames[i].module,
{
}

/// Evaluating a module that was evaluated runs nothing: it comes to a resolved promise at once.
pub proof fn law_evaluating_again_runs_nothing(s: State, id: usize)
    requires
        id < s.graph.len(),
        s.graph[id as int].status == ModuleStatus::Evaluated,
    ensures
        entered(s, id, false).graph == s.graph,
        entered(s, id, false).running == s.running,
        next_step(entered(s, id, false)).1 == Step::Settle(Completion::Resolved),
{
}

} // verus!
