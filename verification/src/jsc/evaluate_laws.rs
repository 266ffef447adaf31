//! How the evaluation of a graph goes on, step by step.

use crate::jsc::evaluate::{
    dependency_namespaces, entered, namespaces, next_step, promised, ran, settled, without_last,
    Completion, Stage, State, Step,
};
use crate::jsc::module::{graph_async, ModuleRecord};
use crate::status::ModuleStatus;
use crate::text::strings;
use vstd::prelude::*;

verus! {

/// A module that is taken up is on its way, with nothing done yet; the engine's own record is evaluated by the
/// engine, unless the embedder fills it in, and everything else begins with its dependencies.
pub proof fn law_taking_up(s: State, id: usize, awaited: bool)
    requires
        id < s.graph.len(),
        s.graph[id as int].status != ModuleStatus::Evaluated,
    ensures
        ({
            let t = entered(s, id, awaited);
            let f = t.frames.last();
            let m = s.graph[id as int];
            &&& t.frames.drop_last() == s.frames
            &&& f.module == id && f.next == 0 && f.promises.len() == 0 && f.awaited == awaited
            &&& t.graph.len() == s.graph.len()
            &&& t.graph[id as int] == (ModuleRecord { status: ModuleStatus::Evaluating, ..m })
            &&& forall|i: int| 0 <= i < s.graph.len() && i != id ==> t.graph[i] == s.graph[i]
            &&& m.native && !m.has_steps ==> f.stage == Stage::Native && t.running == s.running.push(
                id,
            )
            &&& !m.native || m.has_steps ==> f.stage == Stage::Deps && t.running == s.running
        }),
{
    let t = entered(s, id, awaited);
    assert(t.frames.drop_last() =~= s.frames);
}

/// A module that has been evaluated only has its promise settled again; an unknown one is not taken up.
pub proof fn law_nothing_to_take_up(s: State, id: usize, awaited: bool)
    ensures
        id >= s.graph.len() ==> entered(s, id, awaited) == s,
        id < s.graph.len() && s.graph[id as int].status == ModuleStatus::Evaluated ==> {
            let t = entered(s, id, awaited);
            &&& t.graph == s.graph && t.running == s.running
            &&& t.frames.len() == s.frames.len() + 1
            &&& t.frames.last().stage == Stage::Settle(Completion::Resolved)
            &&& t.frames.last().module == id && t.frames.last().awaited == awaited
        },
{
}

/// The state in which a module waits for its dependencies.
pub open spec fn waits_for_dependencies(s: State) -> bool {
    s.frames.len() > 0 && s.frames.last().stage == Stage::Deps && s.frames.last().module
        < s.graph.len()
}

/// The dependencies are taken in order; one that is on its way, or evaluated without awaiting, is passed over,
/// and any other is taken up, awaited where its graph is asynchronous.
pub proof fn law_next_dependency(s: State)
    requires
        waits_for_dependencies(s),
        0 <= s.frames.last().next < s.graph[s.frames.last().module as int].dependencies.len(),
    ensures
        ({
            let f = s.frames.last();
            let k = s.frames.len() - 1;
            let d = s.graph[f.module as int].dependencies@[f.next];
            let (t, step) = next_step(s);
            &&& step == Step::Continue
            &&& t.frames[k].next == f.next + 1
            &&& t.frames[k].module == f.module && t.frames[k].stage == Stage::Deps
            &&& t.frames[k].promises == f.promises && t.frames[k].awaited == f.awaited
            &&& d >= s.graph.len() ==> t.frames.len() == s.frames.len() && t.graph == s.graph
            &&& d < s.graph.len() && s.graph[d as int].status == ModuleStatus::Evaluating
                ==> t.frames.len() == s.frames.len() && t.graph == s.graph
            &&& d < s.graph.len() && s.graph[d as int].status == ModuleStatus::Evaluated
                && !graph_async(s.graph, d) ==> t.frames.len() == s.frames.len() && t.graph == s.graph
            &&& d < s.graph.len() && s.graph[d as int].status == ModuleStatus::Evaluated
                && graph_async(s.graph, d) ==> t.frames.len() == s.frames.len() + 1
                && t.frames.last().module == d && t.frames.last().awaited && t.frames.last().stage
                == Stage::Settle(Completion::Resolved)
            &&& d < s.graph.len() && s.graph[d as int].status == ModuleStatus::Instantiated
                ==> t.frames.len() == s.frames.len() + 1 && t.frames.last().module == d
                && t.frames.last().awaited == graph_async(s.graph, d) && t.graph[d as int].status
                == ModuleStatus::Evaluating
        }),
{
}

/// Once the dependencies are done, the embedder's steps run, or else the script; a module with neither is
/// evaluated.
pub proof fn law_after_the_dependencies(s: State)
    requires
        waits_for_dependencies(s),
        s.frames.last().next >= s.graph[s.frames.last().module as int].dependencies.len(),
    ensures
        ({
            let f = s.frames.last();
            let m = s.graph[f.module as int];
            let (t, step) = next_step(s);
            let g = t.frames.last();
            &&& step == Step::Continue
            &&& t.frames.len() == s.frames.len()
            &&& g.module == f.module && g.promises == f.promises && g.awaited == f.awaited
            &&& m.has_steps ==> g.stage == Stage::Steps && t.running == s.running && t.graph == s.graph
            &&& !m.has_steps && m.source is Some ==> g.stage == Stage::Source && t.running
                == s.running.push(f.module) && t.graph == s.graph
            &&& !m.has_steps && m.source is None ==> g.stage == Stage::Settle(Completion::Resolved)
                && t.running == s.running && t.graph[f.module as int].status
                == ModuleStatus::Evaluated
        }),
{
}

/// A module whose turn has come is run the way that it waits for; its script is run as an asynchronous
/// function where it awaits or has promises to wait for.
pub proof fn law_running(s: State)
    requires
        s.frames.len() > 0,
    ensures
        ({
            let f = s.frames.last();
            let m = s.graph[f.module as int];
            &&& f.stage == Stage::Native ==> next_step(s) == (s, Step::RunNative(f.module))
            &&& f.stage == Stage::Steps ==> next_step(s) == (s, Step::RunSteps(f.module))
            &&& f.stage == Stage::Source && (m.is_async || f.promises.len() > 0) ==> next_step(s) == (
                s,
                Step::RunSource { module: f.module, is_async: true },
            )
            &&& f.stage == Stage::Source && !m.is_async && f.promises.len() == 0 ==> next_step(s) == (
                s,
                Step::RunSource { module: f.module, is_async: false },
            )
            &&& f.stage matches Stage::Settle(c) ==> next_step(s) == (s, Step::Settle(c))
        }),
{
}

/// What has run is off the list of what runs, at its latest place; steps were never on it.
pub proof fn law_after_a_run(s: State, status: ModuleStatus, c: Completion)
    requires
        s.frames.len() > 0,
        s.frames.last().module < s.graph.len(),
    ensures
        ({
            let f = s.frames.last();
            let t = ran(s, status, c);
            &&& t.graph[f.module as int].status == status
            &&& t.frames.len() == s.frames.len()
            &&& t.frames.last().stage == Stage::Settle(c)
            &&& t.frames.last().module == f.module && t.frames.last().awaited == f.awaited
            &&& f.stage == Stage::Steps ==> t.running == s.running
            &&& f.stage == Stage::Source || f.stage == Stage::Native ==> t.running == without_last(
                s.running,
                f.module,
            )
        }),
{
}

/// The latest occurrence is taken out, and the rest stays in order.
pub proof fn law_latest_is_taken_out(a: Seq<usize>, id: usize, b: Seq<usize>)
    requires
        !b.contains(id),
    ensures
        without_last(a.push(id) + b, id) == a + b,
        without_last(b, id) == b,
    decreases b.len(),
{
    let list = a.push(id) + b;
    if b.len() == 0 {
        assert(list =~= a.push(id));
        assert(list.drop_last() =~= a);
        assert(a + b =~= a);
        assert(without_last(b, id) =~= b);
    } else {
        let d = b.drop_last();
        assert(b.last() == b[b.len() - 1]);
        assert(b.contains(b.last()));
        assert(!d.contains(id)) by {
            if d.contains(id) {
                let i = choose|i: int| 0 <= i < d.len() && d[i] == id;
                assert(b[i] == id);
            }
        }
        law_latest_is_taken_out(a, id, d);
        assert(list.drop_last() =~= a.push(id) + d);
        assert(list.last() == b.last());
        assert((a + d).push(b.last()) =~= a + b);
        assert(d.push(b.last()) =~= b);
    }
}

/// A settled module is done; its promise goes to the module that awaits it, and to no other.
pub proof fn law_settling(s: State, promise: usize)
    requires
        s.frames.len() > 0,
    ensures
        ({
            let k = s.frames.len() - 1;
            let f = s.frames.last();
            let t = settled(s, Some(promise));
            &&& t.graph == s.graph && t.running == s.running
            &&& t.frames.len() == k
            &&& settled(s, None).frames == s.frames.drop_last()
            &&& k > 0 && f.awaited ==> t.frames[k - 1].promises == s.frames[k - 1].promises.push(promise)
            &&& k > 0 && f.awaited ==> t.frames[k - 1].module == s.frames[k - 1].module
                && t.frames[k - 1].next == s.frames[k - 1].next
            &&& !f.awaited ==> t.frames == s.frames.drop_last()
            &&& forall|i: int| 0 <= i < k - 1 ==> t.frames[i] == s.frames[i]
        }),
{
}

/// A promise that came back is what the module comes to; without one it is resolved.
pub proof fn law_promises(p: usize)
    ensures
        promised(Some(p)) == Completion::Promise(p),
        promised(None) == Completion::Resolved,
{
}

/// A module's own namespace is registered first, under its address; then those of its dependencies, in order,
/// each under the specifier that led to it, as far as they are there.
pub proof fn law_registered_namespaces(
    g: Seq<ModuleRecord>,
    id: usize,
    specifiers: Seq<Seq<char>>,
    deps: Seq<usize>,
    n: int,
)
    requires
        id < g.len(),
        n >= 0,
    ensures
        g[id as int].specifier@.len() > 0 ==> namespaces(g, id).len() > 0 && namespaces(g, id)[0] == (
            g[id as int].specifier@,
            id,
        ),
        ({
            let before = dependency_namespaces(g, specifiers, deps, n);
            let after = dependency_namespaces(g, specifiers, deps, n + 1);
            if specifiers[n].len() > 0 && deps[n] < g.len() && g[deps[n] as int].has_namespace {
                after == before.push((specifiers[n], deps[n]))
            } else {
                after == before
            }
        }),
        dependency_namespaces(g, specifiers, deps, 0).len() == 0,
        g[id as int].specifier@.len() == 0 && g[id as int].import_specifiers@.len()
            == g[id as int].dependencies@.len() ==> namespaces(g, id) == dependency_namespaces(
            g,
            strings(g[id as int].import_specifiers@),
            g[id as int].dependencies@,
            g[id as int].dependencies@.len() as int,
        ),
{
    let m = g[id as int];
    if m.specifier@.len() == 0 && m.import_specifiers@.len() == m.dependencies@.len() {
        assert(namespaces(g, id) =~= dependency_namespaces(
            g,
            strings(m.import_specifiers@),
            m.dependencies@,
            m.dependencies@.len() as int,
        ));
    }
}

} // verus!
