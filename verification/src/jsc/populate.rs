//! Making the graph of a module known to the engine's own linker: every specifier is resolved, depth
//! first, and each pair of engine records is joined. The graph can be linked only if every specifier
//! led to a module of which the engine has a record.

use crate::jsc::instantiate::{graph_with_status, set_status};
use crate::jsc::module::ModuleRecord;
use crate::status::ModuleStatus;
use vstd::prelude::*;

verus! {

/// What a module on the way waits for.
#[derive(Clone, Copy, PartialEq, Eq, Structural, Debug)]
pub enum Stage {
    /// Its next specifier, or its end.
    Ask,
    /// A dependency that is on its way itself.
    Child(usize),
    /// The joining of a dependency, of which it is known whether its own graph can be linked.
    Attach(usize, bool),
    /// The evaluation of a dependency that the embedder fills in.
    Run(usize, bool),
}

/// A module on the way.
pub struct Frame {
    /// Its number.
    pub module: usize,
    /// How many of its specifiers are done.
    pub next: usize,
    /// The modules that they were resolved to.
    pub deps: Vec<usize>,
    /// Whether its graph can be linked, as far as it is known.
    pub linkable: bool,
    /// What it waits for.
    pub stage: Stage,
}

/// What is to be done next.
#[derive(Clone, Copy, PartialEq, Eq, Structural, Debug)]
pub enum Step {
    /// Resolve a module's specifier and report the result.
    Resolve { module: usize, index: usize },
    /// Tell the engine what a module's specifier stands for.
    AddDependency { module: usize, index: usize, dep: usize },
    /// Evaluate a module that the embedder fills in.
    Evaluate(usize),
    /// Go on.
    Continue,
    /// All of the graph has been visited; whether it can be linked.
    Done(bool),
}

/// The engine has a record of `id`.
pub open spec fn has_native(g: Seq<ModuleRecord>, id: usize) -> bool {
    id < g.len() && g[id as int].native
}

/// The embedder fills `id` in, and has not done so yet.
pub open spec fn to_be_filled(g: Seq<ModuleRecord>, id: usize) -> bool {
    has_native(g, id) && g[id as int].has_steps && g[id as int].status != ModuleStatus::Evaluated
}

/// What holds of one module on the way: it is known; if its graph still counts as linkable, the
/// engine has a record of it and of everything its specifiers led to, and none led nowhere.
pub open spec fn frame_ok(g: Seq<ModuleRecord>, f: Frame) -> bool {
    &&& f.module < g.len()
    &&& f.next <= g[f.module as int].import_specifiers.len()
    &&& f.stage != Stage::Ask ==> f.next < g[f.module as int].import_specifiers.len()
    &&& f.deps@.len() <= f.next
    &&& f.linkable ==> {
        &&& g[f.module as int].native
        &&& f.deps@.len() == f.next
        &&& forall|i: int| 0 <= i < f.deps@.len() ==> has_native(g, #[trigger] f.deps@[i])
        &&& f.stage matches Stage::Run(d, _) ==> has_native(g, d)
    }
}

/// What holds of all modules on the way: every one but the last waits for one that is on its way.
pub open spec fn on_the_way(g: Seq<ModuleRecord>, frames: Seq<Frame>) -> bool {
    &&& forall|i: int| 0 <= i < frames.len() ==> frame_ok(g, #[trigger] frames[i])
    &&& forall|i: int|
        0 <= i < frames.len() - 1 ==> (#[trigger] frames[i]).stage == Stage::Child(
            frames[i + 1].module,
        )
    &&& frames.len() > 0 ==> !(frames.last().stage is Child)
}

/// Takes up the module `id`. An unknown one cannot be linked; one that was taken up before can if the
/// engine has a record of it. The result says so in these cases; any other module is on its way.
fn visit(g: &mut Vec<ModuleRecord>, frames: &mut Vec<Frame>, id: usize) -> (r: Option<bool>)
    ensures
        id >= old(g)@.len() ==> r == Some(false) && final(g)@ == old(g)@ && final(frames)@ == old(
            frames,
        )@,
        id < old(g)@.len() && old(g)@[id as int].status != ModuleStatus::Uninstantiated ==> r
            == Some(old(g)@[id as int].native) && final(g)@ == old(g)@ && final(frames)@ == old(
            frames,
        )@,
        id < old(g)@.len() && old(g)@[id as int].status == ModuleStatus::Uninstantiated ==> {
            &&& r is None
            &&& final(g)@ == graph_with_status(old(g)@, id as int, ModuleStatus::Instantiating)
            &&& final(frames)@.len() == old(frames)@.len() + 1
            &&& final(frames)@.drop_last() == old(frames)@
            &&& ({
                let f = final(frames)@.last();
                &&& f.module == id
                &&& f.next == 0
                &&& f.deps@.len() == 0
                &&& f.linkable == old(g)@[id as int].native
                &&& f.stage == Stage::Ask
            })
        },
{
    if id >= g.len() {
        return Some(false);
    }
    if g[id].status != ModuleStatus::Uninstantiated {
        return Some(g[id].native);
    }
    let linkable = g[id].native;
    set_status(g, id, ModuleStatus::Instantiating);
    frames.push(Frame { module: id, next: 0, deps: Vec::new(), linkable, stage: Stage::Ask });
    assert(frames@.drop_last() =~= old(frames)@);
    None
}

/// The frame, waiting for something else.
pub open spec fn at_stage(f: Frame, stage: Stage) -> Frame {
    Frame { stage, ..f }
}

/// Beginning with the module `root` leads to this state. An unknown module cannot be linked; one that was
/// taken up before can if the engine has a record of it; any other is on its way.
pub open spec fn starts(
    g: Seq<ModuleRecord>,
    root: usize,
    g2: Seq<ModuleRecord>,
    frames2: Seq<Frame>,
    r: Step,
) -> bool {
    if root >= g.len() {
        r == Step::Done(false) && g2 == g && frames2.len() == 0
    } else if g[root as int].status != ModuleStatus::Uninstantiated {
        r == Step::Done(g[root as int].native) && g2 == g && frames2.len() == 0
    } else {
        &&& r == Step::Continue
        &&& g2 == graph_with_status(g, root as int, ModuleStatus::Instantiating)
        &&& frames2.len() == 1
        &&& frames2[0].module == root
        &&& frames2[0].next == 0
        &&& frames2[0].deps@.len() == 0
        &&& frames2[0].linkable == g[root as int].native
        &&& frames2[0].stage == Stage::Ask
    }
}

/// Resolving the specifier on top to `dep`, or to nothing, leads from one state to the other. Where it led
/// nowhere the graph cannot be linked; a module that has not been taken up is visited first.
pub open spec fn resolves(
    g: Seq<ModuleRecord>,
    frames: Seq<Frame>,
    dep: Option<usize>,
    g2: Seq<ModuleRecord>,
    frames2: Seq<Frame>,
) -> bool {
    let k = frames.len() - 1;
    let top = frames[k];
    &&& frames2.len() >= k + 1
    &&& forall|i: int| 0 <= i < k ==> #[trigger] frames2[i] == frames[i]
    &&& match dep {
        None => {
            &&& frames2.len() == k + 1
            &&& frames2[k] == (Frame { next: (top.next + 1) as usize, linkable: false, ..top })
            &&& g2 == g
        },
        Some(d) => if d >= g.len() {
            &&& frames2.len() == k + 1
            &&& frames2[k] == at_stage(top, Stage::Attach(d, false))
            &&& g2 == g
        } else if g[d as int].status != ModuleStatus::Uninstantiated {
            &&& frames2.len() == k + 1
            &&& frames2[k] == at_stage(top, Stage::Attach(d, g[d as int].native))
            &&& g2 == g
        } else {
            &&& frames2.len() == k + 2
            &&& frames2[k] == at_stage(top, Stage::Child(d))
            &&& frames2[k + 1].module == d
            &&& frames2[k + 1].next == 0
            &&& frames2[k + 1].deps@.len() == 0
            &&& frames2[k + 1].linkable == g[d as int].native
            &&& frames2[k + 1].stage == Stage::Ask
            &&& g2 == graph_with_status(g, d as int, ModuleStatus::Instantiating)
        },
    }
}

/// Going on with the module on top leads from one state to the other. With no specifier left, its
/// dependencies are recorded and it counts as instantiated; a dependency is joined where the engine has a
/// record of both, else the graph cannot be linked; a dependency that the embedder fills in is evaluated at
/// once.
pub open spec fn moves_on(
    g: Seq<ModuleRecord>,
    frames: Seq<Frame>,
    g2: Seq<ModuleRecord>,
    frames2: Seq<Frame>,
    r: Step,
) -> bool {
    let k = frames.len() - 1;
    let top = frames[k];
    let m = top.module as int;
    match top.stage {
        Stage::Ask => if top.next < g[m].import_specifiers.len() {
            &&& r == (Step::Resolve { module: top.module, index: top.next })
            &&& g2 == g
            &&& frames2 == frames
        } else {
            &&& g2 == g.update(
                m,
                ModuleRecord {
                    status: ModuleStatus::Instantiated,
                    dependencies: top.deps,
                    ..g[m]
                },
            )
            &&& if k == 0 {
                &&& r == Step::Done(top.linkable)
                &&& frames2.len() == 0
            } else {
                &&& r == Step::Continue
                &&& frames2 == frames.drop_last().update(
                    k - 1,
                    at_stage(frames[k - 1], Stage::Attach(top.module, top.linkable)),
                )
            }
        },
        Stage::Child(_) => r == Step::Continue && g2 == g && frames2 == frames,
        Stage::Attach(d, ok) => {
            let joined = g[m].native && has_native(g, d);
            &&& g2 == g
            &&& r == if joined {
                Step::AddDependency { module: top.module, index: top.next, dep: d }
            } else {
                Step::Continue
            }
            &&& frames2 == frames.update(
                k,
                Frame { stage: Stage::Run(d, ok), linkable: top.linkable && joined, ..top },
            )
        },
        Stage::Run(d, ok) => {
            &&& g2 == g
            &&& r == if to_be_filled(g, d) {
                Step::Evaluate(d)
            } else {
                Step::Continue
            }
            &&& frames2.len() == k + 1
            &&& forall|i: int| 0 <= i < k ==> #[trigger] frames2[i] == frames[i]
            &&& frames2[k].module == top.module
            &&& frames2[k].next == top.next + 1
            &&& frames2[k].deps@ == top.deps@.push(d)
            &&& frames2[k].linkable == (top.linkable && ok)
            &&& frames2[k].stage == Stage::Ask
        },
    }
}

/// Begins with the module `root`.
pub fn start(g: &mut Vec<ModuleRecord>, frames: &mut Vec<Frame>, root: usize) -> (r: Step)
    requires
        old(frames)@.len() == 0,
    ensures
        on_the_way(final(g)@, final(frames)@),
        starts(old(g)@, root, final(g)@, final(frames)@, r),
{
    match visit(g, frames, root) {
        Some(b) => Step::Done(b),
        None => Step::Continue,
    }
}

/// The specifier on top was resolved to `dep`, or to nothing. Where it led nowhere the graph cannot be
/// linked; a module that has not been taken up is visited first.
pub fn resolved(g: &mut Vec<ModuleRecord>, frames: &mut Vec<Frame>, dep: Option<usize>)
    requires
        on_the_way(old(g)@, old(frames)@),
        old(frames)@.len() > 0,
        old(frames)@.last().stage == Stage::Ask,
        old(frames)@.last().next < old(g)@[old(
            frames,
        )@.last().module as int].import_specifiers.len(),
    ensures
        on_the_way(final(g)@, final(frames)@),
        resolves(old(g)@, old(frames)@, dep, final(g)@, final(frames)@),
{
    let k = frames.len() - 1;
    let ghost top = frames@[k as int];
    assert(frame_ok(g@, top));
    match dep {
        None => {
            frames[k].next += 1;
            frames[k].linkable = false;
            assert(frames@[k as int] == (Frame {
                next: (top.next + 1) as usize,
                linkable: false,
                ..top
            }));
        },
        Some(d) => {
            frames[k].stage = Stage::Child(d);
            let ghost now = frames@;
            match visit(g, frames, d) {
                Some(b) => {
                    frames[k].stage = Stage::Attach(d, b);
                },
                None => {
                    assert forall|i: int| 0 <= i < now.len() implies #[trigger] frames@[i]
                        == now[i] by {
                        assert(frames@.drop_last()[i] == frames@[i]);
                    }
                },
            }
        },
    }
}

/// What the module on top needs next. With no specifier left, its dependencies are recorded and it
/// counts as instantiated; a dependency is joined where the engine has a record of both, else the
/// graph cannot be linked; a dependency that the embedder fills in is evaluated at once.
#[verifier::rlimit(40)]
pub fn proceed(g: &mut Vec<ModuleRecord>, frames: &mut Vec<Frame>) -> (r: Step)
    requires
        on_the_way(old(g)@, old(frames)@),
        old(frames)@.len() > 0,
    ensures
        on_the_way(final(g)@, final(frames)@),
        moves_on(old(g)@, old(frames)@, final(g)@, final(frames)@, r),
{
    let k = frames.len() - 1;
    let ghost top = frames@[k as int];
    assert(frame_ok(g@, top));
    assert(frames@.last() == top);
    let m = frames[k].module;
    match frames[k].stage {
        Stage::Ask => {
            if frames[k].next < g[m].import_specifiers.len() {
                return Step::Resolve { module: m, index: frames[k].next };
            }
            let ghost others = frames@.drop_last();
            let f = frames.pop().unwrap();
            assert(frames@ =~= others);
            let linkable = f.linkable;
            g[m].dependencies = f.deps;
            g[m].status = ModuleStatus::Instantiated;
            assert(g@ =~= old(g)@.update(
                m as int,
                ModuleRecord {
                    status: ModuleStatus::Instantiated,
                    dependencies: top.deps,
                    ..old(g)@[m as int]
                },
            ));
            if k == 0 {
                return Step::Done(linkable);
            }
            let ghost parent = old(frames)@[k - 1];
            assert(parent.stage == Stage::Child(old(frames)@[k - 1 + 1].module));
            assert(frame_ok(old(g)@, parent));
            frames[k - 1].stage = Stage::Attach(m, linkable);
            assert(frames@ =~= others.update(
                k - 1,
                at_stage(parent, Stage::Attach(m, linkable)),
            ));
            Step::Continue
        },
        Stage::Child(_) => Step::Continue,
        Stage::Attach(d, ok) => {
            let joined = g[m].native && d < g.len() && g[d].native;
            frames[k].stage = Stage::Run(d, ok);
            if !joined {
                frames[k].linkable = false;
            }
            assert(frames@ =~= old(frames)@.update(
                k as int,
                Frame { stage: Stage::Run(d, ok), linkable: top.linkable && joined, ..top },
            ));
            if joined {
                Step::AddDependency { module: m, index: frames[k].next, dep: d }
            } else {
                Step::Continue
            }
        },
        Stage::Run(d, ok) => {
            if !ok {
                frames[k].linkable = false;
            }
            frames[k].deps.push(d);
            frames[k].next += 1;
            frames[k].stage = Stage::Ask;
            if d < g.len() && g[d].has_steps && g[d].native && g[d].status
                != ModuleStatus::Evaluated {
                Step::Evaluate(d)
            } else {
                Step::Continue
            }
        },
    }
}

/// Every module that is marked as instantiating was so before, or is on its way.
pub open spec fn accounted_for(
    g: Seq<ModuleRecord>,
    before: Set<usize>,
    frames: Seq<Frame>,
) -> bool {
    forall|m: usize|
        m < g.len() && (#[trigger] g[m as int]).status == ModuleStatus::Instantiating
            ==> before.contains(m) || exists|i: int|
            0 <= i < frames.len() && (#[trigger] frames[i]).module == m
}

/// No module is left half-way: every module that a step marks as instantiating is on its way until it counts
/// as instantiated. Once no module is on its way, only those are marked that were so before.
pub proof fn law_no_module_is_left_halfway(
    g: Seq<ModuleRecord>,
    before: Set<usize>,
    frames: Seq<Frame>,
    dep: Option<usize>,
    g2: Seq<ModuleRecord>,
    frames2: Seq<Frame>,
    r: Step,
)
    requires
        on_the_way(g, frames),
        accounted_for(g, before, frames),
        frames.len() > 0,
        resolves(g, frames, dep, g2, frames2) || moves_on(g, frames, g2, frames2, r),
    ensures
        accounted_for(g2, before, frames2),
        frames2.len() == 0 ==> forall|m: usize|
            m < g2.len() && (#[trigger] g2[m as int]).status == ModuleStatus::Instantiating
                ==> before.contains(m),
{
    let k = frames.len() - 1;
    let top = frames[k];
    assert forall|m: usize|
        m < g2.len() && (#[trigger] g2[m as int]).status == ModuleStatus::Instantiating
            && !before.contains(m) implies exists|i: int|
        0 <= i < frames2.len() && (#[trigger] frames2[i]).module == m by {
        if g[m as int].status == ModuleStatus::Instantiating {
            let i = choose|i: int| 0 <= i < frames.len() && (#[trigger] frames[i]).module == m;
            if resolves(g, frames, dep, g2, frames2) {
                assert(i < k ==> frames2[i] == frames[i]);
                assert(frames2[i].module == m);
            } else if top.stage == Stage::Ask && top.next
                >= g[top.module as int].import_specifiers.len() {
                assert(m != top.module);
                assert(i < k);
                assert(frames2[i].module == m);
            } else {
                assert(i < k ==> frames2[i] == frames[i]);
                assert(frames2[i].module == m);
            }
        } else {
            assert(frames2[k + 1].module == m);
        }
    }
}

/// Beginning with a module marks no module but itself.
pub proof fn law_start_accounts_for_the_root(
    g: Seq<ModuleRecord>,
    before: Set<usize>,
    root: usize,
    g2: Seq<ModuleRecord>,
    frames2: Seq<Frame>,
    r: Step,
)
    requires
        accounted_for(g, before, seq![]),
        starts(g, root, g2, frames2, r),
    ensures
        accounted_for(g2, before, frames2),
{
    assert forall|m: usize|
        m < g2.len() && (#[trigger] g2[m as int]).status == ModuleStatus::Instantiating
            && !before.contains(m) implies exists|i: int|
        0 <= i < frames2.len() && (#[trigger] frames2[i]).module == m by {
        if g[m as int].status != ModuleStatus::Instantiating {
            assert(frames2[0].module == m);
        }
    }
}

/// The engine has a record of the module and of all that its specifiers led to, and none led nowhere.
pub open spec fn joined_up(g: Seq<ModuleRecord>, m: usize) -> bool {
    let deps = g[m as int].dependencies@;
    &&& has_native(g, m)
    &&& deps.len() == g[m as int].import_specifiers.len()
    &&& forall|i: int| 0 <= i < deps.len() ==> has_native(g, #[trigger] deps[i])
}

/// The graph of the module on the way is known not to be linkable.
pub open spec fn is_tainted(f: Frame) -> bool {
    ||| !f.linkable
    ||| f.stage matches Stage::Attach(_, ok) && !ok
    ||| f.stage matches Stage::Run(_, ok) && !ok
}

/// Every module that has been taken up since `before` is on its way, or joined up, unless the graph is known
/// not to be linkable.
pub open spec fn walked(g: Seq<ModuleRecord>, before: Set<usize>, frames: Seq<Frame>) -> bool {
    ||| exists|i: int| 0 <= i < frames.len() && is_tainted(#[trigger] frames[i])
    ||| forall|m: usize|
        m < g.len() && (#[trigger] g[m as int]).status != ModuleStatus::Uninstantiated
            && !before.contains(m) ==> joined_up(g, m) || exists|i: int|
            0 <= i < frames.len() && (#[trigger] frames[i]).module == m
}

/// A module stays joined up where only others change, and none loses its record.
proof fn lemma_joined_up_stays(g: Seq<ModuleRecord>, g2: Seq<ModuleRecord>, m: usize)
    requires
        joined_up(g, m),
        g2.len() == g.len(),
        forall|i: int| 0 <= i < g.len() ==> (#[trigger] g2[i]).native == g[i].native,
        g2[m as int].dependencies == g[m as int].dependencies,
        g2[m as int].import_specifiers == g[m as int].import_specifiers,
    ensures
        joined_up(g2, m),
{
    let deps = g2[m as int].dependencies@;
    assert forall|i: int| 0 <= i < deps.len() implies has_native(g2, #[trigger] deps[i]) by {
        assert(has_native(g, deps[i]));
        assert(g2[deps[i] as int].native == g[deps[i] as int].native);
    }
    assert(g2[m as int].native == g[m as int].native);
}

/// Beginning with a module takes up no module but itself.
pub proof fn law_start_walks_to_the_root(
    g: Seq<ModuleRecord>,
    before: Set<usize>,
    root: usize,
    g2: Seq<ModuleRecord>,
    frames2: Seq<Frame>,
    r: Step,
)
    requires
        starts(g, root, g2, frames2, r),
        forall|m: usize|
            m < g.len() && (#[trigger] g[m as int]).status != ModuleStatus::Uninstantiated
                ==> before.contains(m),
    ensures
        walked(g2, before, frames2),
{
    assert forall|m: usize|
        m < g2.len() && (#[trigger] g2[m as int]).status != ModuleStatus::Uninstantiated
            && !before.contains(m) implies joined_up(g2, m) || exists|i: int|
        0 <= i < frames2.len() && (#[trigger] frames2[i]).module == m by {
        if g[m as int].status == ModuleStatus::Uninstantiated {
            assert(frames2[0].module == m);
        }
    }
}

/// What is known not to be linkable stays so.
proof fn lemma_taint_stays(
    g: Seq<ModuleRecord>,
    frames: Seq<Frame>,
    dep: Option<usize>,
    g2: Seq<ModuleRecord>,
    frames2: Seq<Frame>,
    r: Step,
    i: int,
)
    requires
        on_the_way(g, frames),
        frames.len() > 0,
        resolves(g, frames, dep, g2, frames2) && frames.last().stage == Stage::Ask || moves_on(
            g,
            frames,
            g2,
            frames2,
            r,
        ),
        0 <= i < frames.len(),
        is_tainted(frames[i]),
    ensures
        frames2.len() > 0 ==> exists|j: int| 0 <= j < frames2.len() && is_tainted(#[trigger] frames2[j]),
        moves_on(g, frames, g2, frames2, r) && frames2.len() == 0 ==> r == Step::Done(false),
{
    let k = frames.len() - 1;
    let top = frames[k];
    if i < k {
        assert(frames[i].stage == Stage::Child(frames[i + 1].module));
    }
    if !moves_on(g, frames, g2, frames2, r) {
        assert(is_tainted(frames2[i]));
    } else if top.stage == Stage::Ask && top.next >= g[top.module as int].import_specifiers.len() {
        if k > 0 {
            let j = if i == k {
                k - 1
            } else {
                i
            };
            assert(is_tainted(frames2[j]));
        }
    } else {
        assert(is_tainted(frames2[i]));
    }
}

/// The module on top, with its last specifier done, is joined up if its graph counts as linkable.
proof fn lemma_top_joined_up(g: Seq<ModuleRecord>, top: Frame, g2: Seq<ModuleRecord>)
    requires
        frame_ok(g, top),
        top.linkable,
        top.next == g[top.module as int].import_specifiers.len(),
        g2 == g.update(
            top.module as int,
            ModuleRecord {
                status: ModuleStatus::Instantiated,
                dependencies: top.deps,
                ..g[top.module as int]
            },
        ),
    ensures
        joined_up(g2, top.module),
{
    let deps = g2[top.module as int].dependencies@;
    assert(deps == top.deps@);
    assert forall|i: int| 0 <= i < deps.len() implies has_native(g2, #[trigger] deps[i]) by {
        assert(has_native(g, top.deps@[i]));
    }
}

/// What one module has come to once a step is taken.
proof fn lemma_one_walked(
    g: Seq<ModuleRecord>,
    frames: Seq<Frame>,
    dep: Option<usize>,
    g2: Seq<ModuleRecord>,
    frames2: Seq<Frame>,
    r: Step,
    m: usize,
)
    requires
        on_the_way(g, frames),
        frames.len() > 0,
        frames.last().linkable,
        resolves(g, frames, dep, g2, frames2) && frames.last().stage == Stage::Ask || moves_on(
            g,
            frames,
            g2,
            frames2,
            r,
        ),
        m < g2.len(),
        g2[m as int].status != ModuleStatus::Uninstantiated,
        g[m as int].status == ModuleStatus::Uninstantiated || joined_up(g, m) || exists|i: int|
            0 <= i < frames.len() && (#[trigger] frames[i]).module == m,
    ensures
        joined_up(g2, m) || exists|i: int|
            0 <= i < frames2.len() && (#[trigger] frames2[i]).module == m,
{
    let k = frames.len() - 1;
    let top = frames[k];
    assert(frame_ok(g, top));
    if !moves_on(g, frames, g2, frames2, r) {
        if joined_up(g, m) {
            lemma_joined_up_stays(g, g2, m);
        } else if g[m as int].status == ModuleStatus::Uninstantiated {
            assert(frames2[k + 1].module == m);
        } else {
            let i = choose|i: int| 0 <= i < frames.len() && (#[trigger] frames[i]).module == m;
            assert(frames2[i].module == m);
        }
    } else if top.stage == Stage::Ask && top.next >= g[top.module as int].import_specifiers.len() {
        if m == top.module {
            lemma_top_joined_up(g, top, g2);
        } else if joined_up(g, m) {
            lemma_joined_up_stays(g, g2, m);
        } else {
            let i = choose|i: int| 0 <= i < frames.len() && (#[trigger] frames[i]).module == m;
            assert(i < k);
            assert(frames2[i].module == m);
        }
    } else {
        assert(g2 == g);
        if !joined_up(g, m) {
            let i = choose|i: int| 0 <= i < frames.len() && (#[trigger] frames[i]).module == m;
            assert(frames2[i].module == m);
        }
    }
}

/// A graph is reported as linkable only if the engine has a record of every module that was taken up on the
/// way, and every specifier of each of them led to a module of which it has one.
pub proof fn law_linkable_means_native(
    g: Seq<ModuleRecord>,
    before: Set<usize>,
    frames: Seq<Frame>,
    dep: Option<usize>,
    g2: Seq<ModuleRecord>,
    frames2: Seq<Frame>,
    r: Step,
)
    requires
        on_the_way(g, frames),
        walked(g, before, frames),
        frames.len() > 0,
        resolves(g, frames, dep, g2, frames2) && frames.last().stage == Stage::Ask || moves_on(
            g,
            frames,
            g2,
            frames2,
            r,
        ),
    ensures
        frames2.len() > 0 ==> walked(g2, before, frames2),
        frames2.len() == 0 && r == Step::Done(true) ==> forall|m: usize|
            m < g2.len() && (#[trigger] g2[m as int]).status != ModuleStatus::Uninstantiated
                && !before.contains(m) ==> joined_up(g2, m),
{
    let k = frames.len() - 1;
    if exists|i: int| 0 <= i < frames.len() && is_tainted(#[trigger] frames[i]) {
        let i = choose|i: int| 0 <= i < frames.len() && is_tainted(#[trigger] frames[i]);
        lemma_taint_stays(g, frames, dep, g2, frames2, r, i);
    } else {
        assert(!is_tainted(frames[k]));
        assert forall|m: usize|
            m < g2.len() && (#[trigger] g2[m as int]).status != ModuleStatus::Uninstantiated
                && !before.contains(m) implies joined_up(g2, m) || exists|i: int|
            0 <= i < frames2.len() && (#[trigger] frames2[i]).module == m by {
            lemma_one_walked(g, frames, dep, g2, frames2, r, m);
        }
    }
}

/// A walk over an unknown module finds nothing to link; one over a module that is on its way or past it is
/// over at once, and can be linked where the module is the engine's own.
pub proof fn law_starts(
    g: Seq<ModuleRecord>,
    root: usize,
    g2: Seq<ModuleRecord>,
    frames2: Seq<Frame>,
    r: Step,
)
    requires
        starts(g, root, g2, frames2, r),
    ensures
        root >= g.len() ==> r == Step::Done(false),
        root < g.len() && g[root as int].status != ModuleStatus::Uninstantiated ==> r == Step::Done(
            g[root as int].native,
        ),
        root < g.len() && g[root as int].status == ModuleStatus::Uninstantiated ==> {
            &&& r == Step::Continue
            &&& g2[root as int].status == ModuleStatus::Instantiating
            &&& frames2.len() == 1 && frames2[0].module == root && frames2[0].next == 0
            &&& frames2[0].deps@.len() == 0 && frames2[0].stage == Stage::Ask
            &&& frames2[0].linkable == g[root as int].native
            &&& forall|i: int| 0 <= i < g.len() && i != root ==> g2[i] == g[i]
        },
        r != Step::Continue ==> g2 == g && frames2.len() == 0,
{
}

/// A specifier that cannot be resolved makes the graph one that cannot be linked; a module that is known
/// already is joined, and a new one is walked first.
pub proof fn law_answers_to_specifiers(
    g: Seq<ModuleRecord>,
    frames: Seq<Frame>,
    dep: Option<usize>,
    g2: Seq<ModuleRecord>,
    frames2: Seq<Frame>,
)
    requires
        frames.len() > 0,
        frames.last().next < usize::MAX,
        resolves(g, frames, dep, g2, frames2),
    ensures
        ({
            let k = frames.len() - 1;
            let top = frames[k];
            &&& dep is None ==> !frames2[k].linkable && frames2[k].next == top.next + 1 && frames2.len()
                == frames.len() && frames2[k].deps == top.deps && g2 == g
            &&& dep matches Some(d) ==> d >= g.len() ==> frames2[k].stage == Stage::Attach(d, false)
            &&& dep matches Some(d) ==> d < g.len() && g[d as int].status
                != ModuleStatus::Uninstantiated ==> frames2[k].stage == Stage::Attach(
                d,
                g[d as int].native,
            ) && g2 == g
            &&& dep matches Some(d) ==> d < g.len() && g[d as int].status
                == ModuleStatus::Uninstantiated ==> {
                &&& frames2[k].stage == Stage::Child(d)
                &&& frames2.len() == frames.len() + 1
                &&& frames2[k + 1].module == d && frames2[k + 1].stage == Stage::Ask
                &&& frames2[k + 1].linkable == g[d as int].native
                &&& g2[d as int].status == ModuleStatus::Instantiating
            }
            &&& dep is Some ==> frames2[k].next == top.next && frames2[k].linkable == top.linkable
        }),
{
}

/// Specifiers are asked for in order; behind the last one the module is instantiated with its dependencies,
/// and tells the module that needs it whether it can be linked.
pub proof fn law_ends_of_modules(
    g: Seq<ModuleRecord>,
    frames: Seq<Frame>,
    g2: Seq<ModuleRecord>,
    frames2: Seq<Frame>,
    r: Step,
)
    requires
        frames.len() > 0,
        frames.last().stage == Stage::Ask,
        frames.last().module < g.len(),
        moves_on(g, frames, g2, frames2, r),
    ensures
        ({
            let k = frames.len() - 1;
            let top = frames[k];
            let m = top.module as int;
            &&& top.next < g[m].import_specifiers.len() ==> r == (Step::Resolve {
                module: top.module,
                index: top.next,
            }) && g2 == g && frames2 == frames
            &&& top.next >= g[m].import_specifiers.len() ==> {
                &&& g2[m].status == ModuleStatus::Instantiated
                &&& g2[m].dependencies@ == top.deps@
                &&& forall|i: int| 0 <= i < g.len() && i != m ==> g2[i] == g[i]
                &&& frames2.len() == k
                &&& k == 0 ==> r == Step::Done(top.linkable)
                &&& k > 0 ==> r == Step::Continue && frames2[k - 1].stage == Stage::Attach(
                    top.module,
                    top.linkable,
                )
            }
        }),
{
}

/// A dependency is joined where both modules are the engine's own, and else the graph cannot be linked; then
/// it is noted, and what the embedder has to fill in is evaluated first.
pub proof fn law_joining_dependencies(
    g: Seq<ModuleRecord>,
    frames: Seq<Frame>,
    g2: Seq<ModuleRecord>,
    frames2: Seq<Frame>,
    r: Step,
    d: usize,
    ok: bool,
)
    requires
        frames.len() > 0,
        frames.last().module < g.len(),
        d < g.len(),
        moves_on(g, frames, g2, frames2, r),
    ensures
        ({
            let k = frames.len() - 1;
            let top = frames[k];
            let m = top.module as int;
            &&& top.stage == Stage::Attach(d, ok) && g[m].native && g[d as int].native ==> {
                &&& r == (Step::AddDependency { module: top.module, index: top.next, dep: d })
                &&& frames2[k].linkable == top.linkable
                &&& frames2[k].stage == Stage::Run(d, ok)
            }
            &&& top.stage == Stage::Attach(d, ok) && !(g[m].native && g[d as int].native) ==> {
                &&& r == Step::Continue
                &&& !frames2[k].linkable
                &&& frames2[k].stage == Stage::Run(d, ok)
            }
            &&& top.stage == Stage::Run(d, ok) ==> {
                &&& frames2[k].deps@ == top.deps@.push(d)
                &&& frames2[k].next == top.next + 1
                &&& frames2[k].linkable == (top.linkable && ok)
                &&& frames2[k].stage == Stage::Ask
                &&& g[d as int].native && g[d as int].has_steps && g[d as int].status
                    != ModuleStatus::Evaluated ==> r == Step::Evaluate(d)
                &&& !(g[d as int].native && g[d as int].has_steps) || g[d as int].status
                    == ModuleStatus::Evaluated ==> r == Step::Continue
            }
        }),
{
}

} // verus!
