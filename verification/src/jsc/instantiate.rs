//! Instantiating a module: its specifiers are resolved one by one, and every module that they lead to
//! is instantiated before the next one is taken up.
//!
//! The embedder resolves specifiers and the engine links its own records; the functions here decide
//! what is asked of them next and what becomes of the answers.

use crate::jsc::module::ModuleRecord;
use crate::status::{MaybeBool, ModuleStatus};
use vstd::prelude::*;

verus! {

/// A module that is being instantiated.
pub struct Frame {
    /// Its number.
    pub module: usize,
    /// How many of its specifiers have been taken up.
    pub next: usize,
    /// The modules that they were resolved to.
    pub deps: Vec<usize>,
}

/// What is to be done next.
#[derive(Clone, Copy, PartialEq, Eq, Structural, Debug)]
pub enum Step {
    /// Resolve a module's specifier and report the result.
    Resolve { module: usize, index: usize },
    /// Link the engine's own record of a module and report the result.
    Link(usize),
    /// Go on.
    Continue,
    /// The instantiation is over.
    Done(MaybeBool),
}

/// The record with another status.
pub open spec fn with_status(m: ModuleRecord, status: ModuleStatus) -> ModuleRecord {
    ModuleRecord { status, ..m }
}

/// The graph with another status for one module.
pub open spec fn graph_with_status(g: Seq<ModuleRecord>, id: int, status: ModuleStatus) -> Seq<
    ModuleRecord,
> {
    g.update(id, with_status(g[id], status))
}

/// The modules under way are known, different from each other, marked as instantiating, and rewritten
/// ones; none has taken up more specifiers than it has.
pub open spec fn under_way(g: Seq<ModuleRecord>, frames: Seq<Frame>) -> bool {
    &&& forall|i: int|
        0 <= i < frames.len() ==> {
            let f = #[trigger] frames[i];
            &&& f.module < g.len()
            &&& g[f.module as int].status == ModuleStatus::Instantiating
            &&& f.next <= g[f.module as int].import_specifiers.len()
            &&& f.deps.len() <= f.next
        }
    &&& forall|i: int, j: int|
        0 <= i < j < frames.len() ==> (#[trigger] frames[i]).module != (#[trigger] frames[j]).module
}

/// How many modules have not been taken up.
pub open spec fn untouched(g: Seq<ModuleRecord>) -> nat
    decreases g.len(),
{
    if g.len() == 0 {
        0
    } else {
        untouched(g.drop_last()) + if g.last().status == ModuleStatus::Uninstantiated {
            1nat
        } else {
            0nat
        }
    }
}

proof fn lemma_untouched(g: Seq<ModuleRecord>, id: int, m: ModuleRecord)
    requires
        0 <= id < g.len(),
        m.status != ModuleStatus::Uninstantiated,
    ensures
        untouched(g.update(id, m)) + (if g[id].status == ModuleStatus::Uninstantiated {
            1nat
        } else {
            0nat
        }) == untouched(g),
    decreases g.len(),
{
    let u = g.update(id, m);
    if id == g.len() - 1 {
        assert(u.drop_last() =~= g.drop_last());
    } else {
        assert(u.drop_last() =~= g.drop_last().update(id, m));
        lemma_untouched(g.drop_last(), id, m);
    }
}

/// Sets the status of one module.
pub fn set_status(g: &mut Vec<ModuleRecord>, id: usize, status: ModuleStatus)
    requires
        id < old(g)@.len(),
    ensures
        final(g)@ == graph_with_status(old(g)@, id as int, status),
{
    g[id].status = status;
    assert(g@ =~= graph_with_status(old(g)@, id as int, status));
}

/// Taking up the module `id` leads from one state to the other. An unknown module fails; one that was taken
/// up before needs nothing; the engine links its own records; any other is under way from here on.
pub open spec fn takes_up(
    g: Seq<ModuleRecord>,
    frames: Seq<Frame>,
    id: usize,
    g2: Seq<ModuleRecord>,
    frames2: Seq<Frame>,
    r: Step,
) -> bool {
    if id >= g.len() {
        r == Step::Done(MaybeBool::JustFalse) && g2 == g && frames2 == frames
    } else if g[id as int].status != ModuleStatus::Uninstantiated {
        r == Step::Done(MaybeBool::JustTrue) && g2 == g && frames2 == frames
    } else if g[id as int].native {
        r == Step::Link(id) && g2 == g && frames2 == frames
    } else {
        &&& r == Step::Continue
        &&& g2 == graph_with_status(g, id as int, ModuleStatus::Instantiating)
        &&& frames2.len() == frames.len() + 1
        &&& frames2.drop_last() == frames
        &&& frames2.last().module == id
        &&& frames2.last().next == 0
        &&& frames2.last().deps@.len() == 0
    }
}

/// Going on with the module on top leads from one state to the other: its next specifier is to be resolved,
/// or, when there is none left, its dependencies are recorded. It is then instantiated, and so is the first
/// module once it is on top.
pub open spec fn goes_on(
    g: Seq<ModuleRecord>,
    frames: Seq<Frame>,
    g2: Seq<ModuleRecord>,
    frames2: Seq<Frame>,
    r: Step,
) -> bool {
    let top = frames.last();
    let m = top.module as int;
    if top.next < g[m].import_specifiers.len() {
        &&& r == (Step::Resolve { module: top.module, index: top.next })
        &&& g2 == g
        &&& frames2 == frames
    } else {
        &&& r == if frames.len() == 1 {
            Step::Done(MaybeBool::JustTrue)
        } else {
            Step::Continue
        }
        &&& frames2 == frames.drop_last()
        &&& g2 == g.update(
            m,
            ModuleRecord { status: ModuleStatus::Instantiated, dependencies: top.deps, ..g[m] },
        )
    }
}

/// Resolving the specifier on top to `dep`, or to nothing, leads from one state to the other. Nothing is
/// passed over; a module becomes a dependency and is taken up if it has not been.
pub open spec fn resolves(
    g: Seq<ModuleRecord>,
    frames: Seq<Frame>,
    dep: Option<usize>,
    g2: Seq<ModuleRecord>,
    frames2: Seq<Frame>,
    r: Step,
) -> bool {
    let k = frames.len() - 1;
    let top = frames[k];
    &&& frames2.len() >= k + 1
    &&& forall|i: int| 0 <= i < k ==> #[trigger] frames2[i] == frames[i]
    &&& frames2[k].module == top.module
    &&& frames2[k].next == top.next + 1
    &&& frames2[k].deps@ == match dep {
        Some(d) => top.deps@.push(d),
        None => top.deps@,
    }
    &&& if dep matches Some(d) && d < g.len() && g[d as int].status
        == ModuleStatus::Uninstantiated {
        takes_up(g, frames2.take(k + 1), dep->0, g2, frames2, r)
    } else {
        r == Step::Continue && g2 == g && frames2.len() == k + 1
    }
}

/// Linking the engine's record of `id`, or failing to, leads from one graph to the other. A failure leaves
/// an exception behind.
pub open spec fn links(
    g: Seq<ModuleRecord>,
    frames: Seq<Frame>,
    id: usize,
    ok: bool,
    g2: Seq<ModuleRecord>,
    r: Step,
) -> bool {
    &&& g2 == graph_with_status(
        g,
        id as int,
        if ok {
            ModuleStatus::Instantiated
        } else {
            ModuleStatus::Errored
        },
    )
    &&& r == if frames.len() > 0 {
        Step::Continue
    } else if ok {
        Step::Done(MaybeBool::JustTrue)
    } else {
        Step::Done(MaybeBool::Nothing)
    }
}

/// Takes up the module `id`. An unknown module fails; one that was taken up before needs nothing; the
/// engine links its own records; any other is under way from here on.
pub fn enter(g: &mut Vec<ModuleRecord>, frames: &mut Vec<Frame>, id: usize) -> (r: Step)
    requires
        under_way(old(g)@, old(frames)@),
    ensures
        under_way(final(g)@, final(frames)@),
        takes_up(old(g)@, old(frames)@, id, final(g)@, final(frames)@, r),
        r == Step::Continue ==> untouched(final(g)@) + 1 == untouched(old(g)@),
{
    if id >= g.len() {
        return Step::Done(MaybeBool::JustFalse);
    }
    if g[id].status != ModuleStatus::Uninstantiated {
        return Step::Done(MaybeBool::JustTrue);
    }
    if g[id].native {
        return Step::Link(id);
    }
    proof {
        lemma_untouched(
            g@,
            id as int,
            with_status(g@[id as int], ModuleStatus::Instantiating),
        );
    }
    set_status(g, id, ModuleStatus::Instantiating);
    frames.push(Frame { module: id, next: 0, deps: Vec::new() });
    assert(frames@.drop_last() =~= old(frames)@);
    Step::Continue
}

/// What the module on top needs next: its next specifier resolved, or, when there is none left, its
/// dependencies recorded. It is then instantiated, and so is the first module once it is on top.
pub fn proceed(g: &mut Vec<ModuleRecord>, frames: &mut Vec<Frame>) -> (r: Step)
    requires
        under_way(old(g)@, old(frames)@),
        old(frames)@.len() > 0,
    ensures
        under_way(final(g)@, final(frames)@),
        goes_on(old(g)@, old(frames)@, final(g)@, final(frames)@, r),
{
    let n = frames.len();
    let m = frames[n - 1].module;
    let next = frames[n - 1].next;
    assert(frames@.last() == frames@[n - 1]);
    if next < g[m].import_specifiers.len() {
        return Step::Resolve { module: m, index: next };
    }
    let ghost others = frames@.drop_last();
    assert forall|i: int| 0 <= i < others.len() implies (#[trigger] others[i]).module != m by {
        assert(frames@[i].module != frames@[n - 1].module);
    }
    assert(others.len() == n - 1);
    let top = frames.pop().unwrap();
    assert(frames@ =~= others);
    g[m].dependencies = top.deps;
    g[m].status = ModuleStatus::Instantiated;
    assert(g@ =~= old(g)@.update(m as int, g@[m as int]));
    if frames.len() == 0 {
        Step::Done(MaybeBool::JustTrue)
    } else {
        Step::Continue
    }
}

/// The specifier on top was resolved to `dep`, or to nothing. Nothing is passed over; a module becomes
/// a dependency and is taken up if it has not been.
pub fn resolved(g: &mut Vec<ModuleRecord>, frames: &mut Vec<Frame>, dep: Option<usize>) -> (r: Step)
    requires
        under_way(old(g)@, old(frames)@),
        old(frames)@.len() > 0,
        old(frames)@.last().next < old(g)@[old(
            frames,
        )@.last().module as int].import_specifiers.len(),
    ensures
        under_way(final(g)@, final(frames)@),
        resolves(old(g)@, old(frames)@, dep, final(g)@, final(frames)@, r),
        final(frames)@.len() > old(frames)@.len() ==> untouched(final(g)@) < untouched(old(g)@),
{
    let n = frames.len();
    assert(frames@.last() == frames@[n - 1]);
    frames[n - 1].next += 1;
    match dep {
        None => Step::Continue,
        Some(d) => {
            frames[n - 1].deps.push(d);
            let ghost now = frames@;
            assert(under_way(g@, frames@));
            if d < g.len() && g[d].status == ModuleStatus::Uninstantiated {
                let r = enter(g, frames, d);
                assert forall|i: int| 0 <= i < now.len() implies #[trigger] frames@[i] == now[i] by {
                    if frames@.len() > now.len() {
                        assert(frames@.drop_last()[i] == frames@[i]);
                    }
                }
                assert(frames@.take(now.len() as int) =~= now);
                r
            } else {
                Step::Continue
            }
        },
    }
}

/// The engine linked its record of `id`, or failed to. A failure leaves an exception behind.
pub fn linked(g: &mut Vec<ModuleRecord>, frames: &Vec<Frame>, id: usize, ok: bool) -> (r: Step)
    requires
        under_way(old(g)@, frames@),
        id < old(g)@.len(),
        old(g)@[id as int].status != ModuleStatus::Instantiating,
    ensures
        under_way(final(g)@, frames@),
        links(old(g)@, frames@, id, ok, final(g)@, r),
        untouched(final(g)@) <= untouched(old(g)@),
{
    let status = if ok {
        ModuleStatus::Instantiated
    } else {
        ModuleStatus::Errored
    };
    proof {
        lemma_untouched(g@, id as int, with_status(g@[id as int], status));
    }
    set_status(g, id, status);
    if frames.len() > 0 {
        Step::Continue
    } else if ok {
        Step::Done(MaybeBool::JustTrue)
    } else {
        Step::Done(MaybeBool::Nothing)
    }
}

/// One of the steps other than linking leads from one state to the other.
pub open spec fn is_move(
    g: Seq<ModuleRecord>,
    frames: Seq<Frame>,
    g2: Seq<ModuleRecord>,
    frames2: Seq<Frame>,
    r: Step,
) -> bool {
    ||| exists|id: usize| #[trigger] takes_up(g, frames, id, g2, frames2, r)
    ||| frames.len() > 0 && goes_on(g, frames, g2, frames2, r)
    ||| frames.len() > 0 && exists|dep: Option<usize>| #[trigger]
        resolves(g, frames, dep, g2, frames2, r)
}

/// One of the steps of an instantiation leads from one state to the other.
pub open spec fn is_step(
    g: Seq<ModuleRecord>,
    frames: Seq<Frame>,
    g2: Seq<ModuleRecord>,
    frames2: Seq<Frame>,
    r: Step,
) -> bool {
    ||| is_move(g, frames, g2, frames2, r)
    ||| frames2 == frames && exists|id: usize, ok: bool|
        id < g.len() && #[trigger] links(g, frames, id, ok, g2, r)
}

/// Every module that is marked as instantiating is under way.
pub open spec fn accounted_for(g: Seq<ModuleRecord>, frames: Seq<Frame>) -> bool {
    forall|m: int|
        0 <= m < g.len() && (#[trigger] g[m]).status == ModuleStatus::Instantiating ==> exists|i: int|
            0 <= i < frames.len() && (#[trigger] frames[i]).module == m
}

/// No module is left half-way: every module that a step marks as instantiating is under way, and stays so
/// until it is instantiated. Once no module is under way, none is marked.
pub proof fn law_no_module_is_left_halfway(
    g: Seq<ModuleRecord>,
    frames: Seq<Frame>,
    g2: Seq<ModuleRecord>,
    frames2: Seq<Frame>,
    r: Step,
)
    requires
        under_way(g, frames),
        accounted_for(g, frames),
        is_step(g, frames, g2, frames2, r),
    ensures
        accounted_for(g2, frames2),
        frames2.len() == 0 ==> forall|m: int|
            0 <= m < g2.len() ==> (#[trigger] g2[m]).status != ModuleStatus::Instantiating,
{
    assert forall|m: int|
        0 <= m < g2.len() && (#[trigger] g2[m]).status
            == ModuleStatus::Instantiating implies exists|i: int|
        0 <= i < frames2.len() && (#[trigger] frames2[i]).module == m by {
        if exists|id: usize| #[trigger] takes_up(g, frames, id, g2, frames2, r) {
            let id = choose|id: usize| #[trigger] takes_up(g, frames, id, g2, frames2, r);
            lemma_accounted_for(g, frames, id, g2, frames2, r, m);
        } else if frames.len() > 0 && goes_on(g, frames, g2, frames2, r) {
            assert(g[m].status == ModuleStatus::Instantiating);
            let i = choose|i: int| 0 <= i < frames.len() && (#[trigger] frames[i]).module == m;
            if frames2.len() < frames.len() {
                assert(i < frames.len() - 1);
                assert(frames2[i] == frames[i]);
            }
        } else if frames.len() > 0 && exists|dep: Option<usize>| #[trigger]
            resolves(g, frames, dep, g2, frames2, r) {
            let dep = choose|dep: Option<usize>| #[trigger] resolves(g, frames, dep, g2, frames2, r);
            let k = frames.len() - 1;
            let now = frames2.take(k + 1);
            assert(accounted_for(g, now)) by {
                assert forall|m: int|
                    0 <= m < g.len() && (#[trigger] g[m]).status
                        == ModuleStatus::Instantiating implies exists|i: int|
                    0 <= i < now.len() && (#[trigger] now[i]).module == m by {
                    let i = choose|i: int|
                        0 <= i < frames.len() && (#[trigger] frames[i]).module == m;
                    if i < k {
                        assert(frames2[i] == frames[i]);
                    }
                    assert(now[i].module == m);
                }
            }
            if dep matches Some(d) && d < g.len() && g[d as int].status
                == ModuleStatus::Uninstantiated {
                lemma_accounted_for(g, now, dep->0, g2, frames2, r, m);
            } else {
                assert(now =~= frames2);
            }
        } else {
            assert(g[m].status == ModuleStatus::Instantiating);
        }
    }
}

proof fn lemma_accounted_for(
    g: Seq<ModuleRecord>,
    frames: Seq<Frame>,
    id: usize,
    g2: Seq<ModuleRecord>,
    frames2: Seq<Frame>,
    r: Step,
    m: int,
)
    requires
        accounted_for(g, frames),
        takes_up(g, frames, id, g2, frames2, r),
        0 <= m < g2.len(),
        g2[m].status == ModuleStatus::Instantiating,
    ensures
        exists|i: int| 0 <= i < frames2.len() && (#[trigger] frames2[i]).module == m,
{
    if g2 != g && m == id {
        assert(frames2[frames2.len() - 1].module == m);
    } else {
        assert(g[m].status == ModuleStatus::Instantiating);
        let i = choose|i: int| 0 <= i < frames.len() && (#[trigger] frames[i]).module == m;
        if frames2.len() > frames.len() {
            assert(frames2.drop_last()[i] == frames2[i]);
        }
        assert(frames2[i].module == m);
    }
}

/// The dependency `d` was taken up, or its record is being linked, or there is no such module.
pub open spec fn is_taken_up(g: Seq<ModuleRecord>, linking: Option<usize>, d: usize) -> bool {
    d < g.len() ==> g[d as int].status != ModuleStatus::Uninstantiated || linking == Some(d)
}

/// Every dependency of a module that is instantiated or under way was taken up.
pub open spec fn dependencies_taken_up(
    g: Seq<ModuleRecord>,
    frames: Seq<Frame>,
    linking: Option<usize>,
) -> bool {
    &&& forall|m: int, k: int|
        0 <= m < g.len() && g[m].status == ModuleStatus::Instantiated && 0 <= k
            < g[m].dependencies@.len() ==> is_taken_up(
            g,
            linking,
            #[trigger] g[m].dependencies@[k],
        )
    &&& forall|i: int, k: int|
        0 <= i < frames.len() && 0 <= k < frames[i].deps@.len() ==> is_taken_up(
            g,
            linking,
            #[trigger] frames[i].deps@[k],
        )
}

/// The record that a step asks to link.
pub open spec fn to_be_linked(r: Step) -> Option<usize> {
    match r {
        Step::Link(d) => Some(d),
        _ => None,
    }
}

/// A module is instantiated only after everything that it depends on was taken up: every step keeps that,
/// but for the record that it asks to link.
pub proof fn law_dependencies_are_taken_up_first(
    g: Seq<ModuleRecord>,
    frames: Seq<Frame>,
    g2: Seq<ModuleRecord>,
    frames2: Seq<Frame>,
    r: Step,
)
    requires
        under_way(g, frames),
        dependencies_taken_up(g, frames, None),
        is_move(g, frames, g2, frames2, r),
    ensures
        dependencies_taken_up(g2, frames2, to_be_linked(r)),
{
    if frames.len() > 0 && goes_on(g, frames, g2, frames2, r) {
        lemma_going_on_takes_up(g, frames, g2, frames2, r);
    } else if exists|id: usize| #[trigger] takes_up(g, frames, id, g2, frames2, r) {
        let id = choose|id: usize| #[trigger] takes_up(g, frames, id, g2, frames2, r);
        lemma_taking_up(g, frames, None, id, g2, frames2, r);
    } else {
        let dep = choose|dep: Option<usize>| #[trigger] resolves(g, frames, dep, g2, frames2, r);
        let k = frames.len() - 1;
        let now = frames2.take(k + 1);
        let fresh = if dep matches Some(d) && d < g.len() && g[d as int].status
            == ModuleStatus::Uninstantiated {
            dep
        } else {
            None
        };
        assert(dependencies_taken_up(g, now, fresh)) by {
            assert forall|i: int, j: int|
                0 <= i < now.len() && 0 <= j < now[i].deps@.len() implies is_taken_up(
                g,
                fresh,
                #[trigger] now[i].deps@[j],
            ) by {
                if i < k {
                    assert(now[i] == frames[i]);
                    assert(is_taken_up(g, None, frames[i].deps@[j]));
                } else if j < frames[k].deps@.len() {
                    assert(is_taken_up(g, None, frames[k].deps@[j]));
                }
            }
            assert forall|m: int, j: int|
                0 <= m < g.len() && g[m].status == ModuleStatus::Instantiated && 0 <= j
                    < g[m].dependencies@.len() implies is_taken_up(
                g,
                fresh,
                #[trigger] g[m].dependencies@[j],
            ) by {
                assert(is_taken_up(g, None, g[m].dependencies@[j]));
            }
        }
        if fresh is Some {
            lemma_taking_up(g, now, fresh, dep->0, g2, frames2, r);
        } else {
            assert(now =~= frames2);
        }
    }
}

proof fn lemma_going_on_takes_up(
    g: Seq<ModuleRecord>,
    frames: Seq<Frame>,
    g2: Seq<ModuleRecord>,
    frames2: Seq<Frame>,
    r: Step,
)
    requires
        under_way(g, frames),
        frames.len() > 0,
        dependencies_taken_up(g, frames, None),
        goes_on(g, frames, g2, frames2, r),
    ensures
        dependencies_taken_up(g2, frames2, None),
{
    let n = frames.len() - 1;
    let top = frames[n];
    assert(frames.last() == top);
    assert forall|m: int, k: int|
        0 <= m < g2.len() && g2[m].status == ModuleStatus::Instantiated && 0 <= k
            < g2[m].dependencies@.len() implies is_taken_up(
        g2,
        None,
        #[trigger] g2[m].dependencies@[k],
    ) by {
        if g2 != g && m == top.module {
            assert(is_taken_up(g, None, top.deps@[k]));
        } else {
            assert(is_taken_up(g, None, g[m].dependencies@[k]));
        }
    }
    assert forall|i: int, k: int|
        0 <= i < frames2.len() && 0 <= k < frames2[i].deps@.len() implies is_taken_up(
        g2,
        None,
        #[trigger] frames2[i].deps@[k],
    ) by {
        assert(frames2[i] == frames[i]);
        assert(is_taken_up(g, None, frames[i].deps@[k]));
    }
}

proof fn lemma_taking_up(
    g: Seq<ModuleRecord>,
    frames: Seq<Frame>,
    fresh: Option<usize>,
    id: usize,
    g2: Seq<ModuleRecord>,
    frames2: Seq<Frame>,
    r: Step,
)
    requires
        dependencies_taken_up(g, frames, fresh),
        takes_up(g, frames, id, g2, frames2, r),
        fresh == None::<usize> || fresh == Some(id),
        fresh is Some ==> id < g.len() && g[id as int].status == ModuleStatus::Uninstantiated,
    ensures
        dependencies_taken_up(g2, frames2, to_be_linked(r)),
{
    assert forall|d: usize| #[trigger] is_taken_up(g, fresh, d) implies is_taken_up(
        g2,
        to_be_linked(r),
        d,
    ) by {}
    assert forall|m: int, k: int|
        0 <= m < g2.len() && g2[m].status == ModuleStatus::Instantiated && 0 <= k
            < g2[m].dependencies@.len() implies is_taken_up(
        g2,
        to_be_linked(r),
        #[trigger] g2[m].dependencies@[k],
    ) by {
        assert(g[m].status == ModuleStatus::Instantiated);
        assert(is_taken_up(g, fresh, g[m].dependencies@[k]));
    }
    assert forall|i: int, k: int|
        0 <= i < frames2.len() && 0 <= k < frames2[i].deps@.len() implies is_taken_up(
        g2,
        to_be_linked(r),
        #[trigger] frames2[i].deps@[k],
    ) by {
        if frames2.len() > frames.len() {
            assert(i < frames.len());
            assert(frames2.drop_last()[i] == frames2[i]);
        }
        assert(is_taken_up(g, fresh, frames[i].deps@[k]));
    }
}

/// Linking the record that a step asked for takes it up.
pub proof fn law_linking_takes_up(
    g: Seq<ModuleRecord>,
    frames: Seq<Frame>,
    id: usize,
    ok: bool,
    g2: Seq<ModuleRecord>,
    r: Step,
)
    requires
        id < g.len(),
        dependencies_taken_up(g, frames, Some(id)),
        forall|k: int|
            0 <= k < g[id as int].dependencies@.len() ==> is_taken_up(
                g,
                Some(id),
                #[trigger] g[id as int].dependencies@[k],
            ),
        links(g, frames, id, ok, g2, r),
    ensures
        dependencies_taken_up(g2, frames, None),
{
    assert forall|d: usize| #[trigger] is_taken_up(g, Some(id), d) implies is_taken_up(
        g2,
        None,
        d,
    ) by {}
    assert forall|m: int, k: int|
        0 <= m < g2.len() && g2[m].status == ModuleStatus::Instantiated && 0 <= k
            < g2[m].dependencies@.len() implies is_taken_up(
        g2,
        None,
        #[trigger] g2[m].dependencies@[k],
    ) by {
        assert(is_taken_up(g, Some(id), g[m].dependencies@[k]));
    }
    assert forall|i: int, k: int|
        0 <= i < frames.len() && 0 <= k < frames[i].deps@.len() implies is_taken_up(
        g2,
        None,
        #[trigger] frames[i].deps@[k],
    ) by {
        assert(is_taken_up(g, Some(id), frames[i].deps@[k]));
    }
}

/// A module that was taken up is never taken up afresh.
pub proof fn law_no_module_is_taken_up_twice(
    g: Seq<ModuleRecord>,
    frames: Seq<Frame>,
    g2: Seq<ModuleRecord>,
    frames2: Seq<Frame>,
    r: Step,
    m: int,
)
    requires
        under_way(g, frames),
        is_step(g, frames, g2, frames2, r),
        0 <= m < g.len(),
        g[m].status != ModuleStatus::Uninstantiated,
    ensures
        g2.len() == g.len(),
        g2[m].status != ModuleStatus::Uninstantiated,
{
}

/// A module that is unknown cannot be instantiated, one that is past that already is, and the engine links its
/// own records; any other is on its way from here on.
pub proof fn law_taking_up_modules(
    g: Seq<ModuleRecord>,
    frames: Seq<Frame>,
    id: usize,
    g2: Seq<ModuleRecord>,
    frames2: Seq<Frame>,
    r: Step,
)
    requires
        takes_up(g, frames, id, g2, frames2, r),
    ensures
        id >= g.len() ==> r == Step::Done(MaybeBool::JustFalse),
        id < g.len() && g[id as int].status != ModuleStatus::Uninstantiated ==> r == Step::Done(
            MaybeBool::JustTrue,
        ),
        id < g.len() && g[id as int].status == ModuleStatus::Uninstantiated && g[id as int].native
            ==> r == Step::Link(id),
        r != Step::Continue ==> g2 == g && frames2 == frames,
        id < g.len() && g[id as int].status == ModuleStatus::Uninstantiated && !g[id as int].native
            ==> {
            &&& r == Step::Continue
            &&& g2[id as int].status == ModuleStatus::Instantiating
            &&& g2[id as int].import_specifiers == g[id as int].import_specifiers
            &&& forall|i: int| 0 <= i < g.len() && i != id ==> g2[i] == g[i]
            &&& frames2.len() == frames.len() + 1
            &&& frames2.last().module == id && frames2.last().next == 0
            &&& frames2.last().deps@.len() == 0
        },
{
}

/// The specifiers of a module are resolved in order; behind the last one it is instantiated with what they
/// were resolved to, and with the outermost module all is done.
pub proof fn law_specifiers_in_order(
    g: Seq<ModuleRecord>,
    frames: Seq<Frame>,
    g2: Seq<ModuleRecord>,
    frames2: Seq<Frame>,
    r: Step,
)
    requires
        frames.len() > 0,
        frames.last().module < g.len(),
        goes_on(g, frames, g2, frames2, r),
    ensures
        ({
            let top = frames.last();
            let m = top.module as int;
            &&& top.next < g[m].import_specifiers.len() ==> r == (Step::Resolve {
                module: top.module,
                index: top.next,
            }) && g2 == g && frames2 == frames
            &&& top.next >= g[m].import_specifiers.len() ==> {
                &&& g2[m].status == ModuleStatus::Instantiated
                &&& g2[m].dependencies@ == top.deps@
                &&& forall|i: int| 0 <= i < g.len() && i != m ==> g2[i] == g[i]
                &&& frames2 == frames.drop_last()
                &&& frames.len() == 1 ==> r == Step::Done(MaybeBool::JustTrue)
                &&& frames.len() > 1 ==> r == Step::Continue
            }
        }),
{
}

/// What a specifier was resolved to is noted behind the others; what it was not resolved to leaves no trace.
/// A module that is new is taken up.
pub proof fn law_resolved_specifiers(
    g: Seq<ModuleRecord>,
    frames: Seq<Frame>,
    dep: Option<usize>,
    g2: Seq<ModuleRecord>,
    frames2: Seq<Frame>,
    r: Step,
)
    requires
        frames.len() > 0,
        resolves(g, frames, dep, g2, frames2, r),
    ensures
        ({
            let k = frames.len() - 1;
            &&& frames2[k].next == frames[k].next + 1
            &&& frames2[k].module == frames[k].module
            &&& dep matches Some(d) ==> frames2[k].deps@ == frames[k].deps@.push(d)
            &&& dep is None ==> frames2[k].deps@ == frames[k].deps@ && frames2.len() == frames.len()
                && g2 == g && r == Step::Continue
            &&& dep matches Some(d) ==> d < g.len() && g[d as int].status
                == ModuleStatus::Uninstantiated && !g[d as int].native ==> frames2.len()
                == frames.len() + 1 && frames2.last().module == d && g2[d as int].status
                == ModuleStatus::Instantiating
            &&& dep matches Some(d) ==> d < g.len() && g[d as int].status
                == ModuleStatus::Uninstantiated && g[d as int].native ==> r == Step::Link(d)
            &&& dep matches Some(d) ==> d < g.len() && g[d as int].status
                != ModuleStatus::Uninstantiated ==> r == Step::Continue && g2 == g
        }),
{
}

/// A record that was linked is instantiated, and one that was not has failed; the outcome of the outermost
/// one is the outcome of all.
pub proof fn law_linked_records(
    g: Seq<ModuleRecord>,
    frames: Seq<Frame>,
    id: usize,
    ok: bool,
    g2: Seq<ModuleRecord>,
    r: Step,
)
    requires
        id < g.len(),
        links(g, frames, id, ok, g2, r),
    ensures
        ok ==> g2[id as int].status == ModuleStatus::Instantiated,
        !ok ==> g2[id as int].status == ModuleStatus::Errored,
        forall|i: int| 0 <= i < g.len() && i != id ==> g2[i] == g[i],
        frames.len() > 0 ==> r == Step::Continue,
        frames.len() == 0 && ok ==> r == Step::Done(MaybeBool::JustTrue),
        frames.len() == 0 && !ok ==> r == Step::Done(MaybeBool::Nothing),
{
}

} // verus!
