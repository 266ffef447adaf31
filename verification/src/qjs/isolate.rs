//! Isolates: which one is current, which of its contexts is, and which handles it holds.
//!
//! A handle is a slot that owns one reference to a value. Slots are kept on a stack, and a scope gives
//! back all that came after it.

use crate::handle_map::HandleMap;
use vstd::prelude::*;

verus! {

/// The number that stands for no object.
pub const NULL: usize = 0;

/// The number of data slots that an isolate has.
pub const DATA_SLOTS: usize = 4;

/// An isolate.
pub struct IsoState {
    /// The context that the isolate was made with.
    pub ctx: usize,
    /// The contexts that were entered, the innermost last.
    pub contexts: Vec<usize>,
    /// The slots, the latest last.
    pub handles: Vec<usize>,
    /// What the embedder left with the isolate.
    pub data_slots: Vec<usize>,
}

impl IsoState {
    /// An isolate has its data slots.
    pub open spec fn well_formed(&self) -> bool {
        self.data_slots@.len() == DATA_SLOTS
    }

    /// The innermost context that was entered, or the isolate's own.
    pub open spec fn top_context(&self) -> usize {
        if self.contexts@.len() > 0 {
            self.contexts@.last()
        } else {
            self.ctx
        }
    }

    /// The innermost context that was entered, or the isolate's own.
    pub fn innermost(&self) -> (r: usize)
        ensures
            r == self.top_context(),
    {
        if self.contexts.len() > 0 {
            self.contexts[self.contexts.len() - 1]
        } else {
            self.ctx
        }
    }
}

/// All isolates, and which one is current.
pub struct Isolates {
    pub all: HandleMap<IsoState>,
    /// The current isolate.
    pub current: usize,
    /// The current context.
    pub context: usize,
    /// The isolate that was current last. It stands in while none is.
    pub last: usize,
}

/// A scope: the isolate, and how many slots it had.
#[derive(Clone, Copy, PartialEq, Eq, Structural, Debug)]
pub struct HandleScope {
    pub isolate: usize,
    pub depth: usize,
}

/// The isolate is known.
pub open spec fn known(all: Map<usize, IsoState>, isolate: usize) -> bool {
    isolate != NULL && all.dom().contains(isolate)
}

/// The slots in the order in which they are given back.
pub open spec fn given_back(handles: Seq<usize>, depth: int) -> Seq<usize> {
    if depth < handles.len() {
        handles.skip(depth).reverse()
    } else {
        seq![]
    }
}

/// The slots that stay.
pub open spec fn kept_below(handles: Seq<usize>, depth: int) -> Seq<usize> {
    if depth < handles.len() {
        handles.take(depth)
    } else {
        handles
    }
}

/// The contexts after one was entered.
pub open spec fn entered(contexts: Seq<usize>, ctx: usize) -> Seq<usize> {
    contexts.push(ctx)
}

/// The contexts after the innermost one was left.
pub open spec fn left(contexts: Seq<usize>) -> Seq<usize> {
    if contexts.len() > 0 {
        contexts.drop_last()
    } else {
        contexts
    }
}

impl Isolates {
    /// The isolates that are current or were last are known, and each has its data slots.
    pub open spec fn well_formed(&self) -> bool {
        &&& self.current != NULL ==> known(self.all@, self.current)
        &&& self.last != NULL ==> known(self.all@, self.last)
        &&& forall|k: usize| #[trigger] self.all@.dom().contains(k) ==> self.all@[k].well_formed()
    }

    /// The current isolate, or the one that was current last.
    pub open spec fn now(&self) -> usize {
        if self.current != NULL {
            self.current
        } else {
            self.last
        }
    }

    /// No isolate is known.
    pub fn new() -> (r: Isolates)
        ensures
            r.all@ == Map::<usize, IsoState>::empty(),
            r.current == NULL,
            r.context == NULL,
            r.last == NULL,
            r.well_formed(),
    {
        Isolates { all: HandleMap::new(), current: NULL, context: NULL, last: NULL }
    }

    /// The current isolate, or the one that was current last.
    pub fn current_iso(&self) -> (r: usize)
        ensures
            r == self.now(),
    {
        if self.current != NULL {
            return self.current;
        }
        self.last
    }

    /// The current context.
    pub fn current_ctx(&self) -> (r: usize)
        ensures
            r == self.context,
    {
        self.context
    }

    /// The current context.
    pub fn ctx(&self) -> (r: usize)
        ensures
            r == self.context,
    {
        self.current_ctx()
    }

    /// Makes this isolate the current one; with none, the last one is remembered.
    pub fn set_current(&mut self, isolate: usize)
        requires
            old(self).well_formed(),
            isolate == NULL || known(old(self).all@, isolate),
        ensures
            final(self).well_formed(),
            *final(self) == (Isolates {
                current: isolate,
                last: if isolate != NULL {
                    isolate
                } else {
                    old(self).last
                },
                ..*old(self)
            }),
    {
        self.current = isolate;
        if isolate != NULL {
            self.last = isolate;
        }
    }

    /// Forgets that this isolate was current last.
    pub fn clear_last_iso(&mut self, isolate: usize)
        requires
            old(self).well_formed(),
        ensures
            final(self).well_formed(),
            *final(self) == (Isolates {
                last: if old(self).last == isolate {
                    NULL
                } else {
                    old(self).last
                },
                ..*old(self)
            }),
    {
        if self.last == isolate {
            self.last = NULL;
        }
    }

    /// The innermost context of an isolate; none without an isolate.
    pub open spec fn context_of(&self, isolate: usize) -> usize {
        if isolate == NULL {
            NULL
        } else {
            self.all@[isolate].top_context()
        }
    }

    /// The innermost context of this isolate.
    pub fn fallback_ctx(&self, isolate: usize) -> (r: usize)
        requires
            isolate == NULL || known(self.all@, isolate),
        ensures
            r == self.context_of(isolate),
    {
        if isolate == NULL {
            return NULL;
        }
        match self.all.get(isolate) {
            Some(st) => st.innermost(),
            None => NULL,
        }
    }

    /// The innermost context of this isolate.
    pub fn iso_ctx(&self, isolate: usize) -> (r: usize)
        requires
            isolate == NULL || known(self.all@, isolate),
        ensures
            r == self.context_of(isolate),
    {
        self.fallback_ctx(isolate)
    }

    /// The innermost context of this isolate; the current one without an isolate.
    pub fn ctx_for(&self, isolate: usize) -> (r: usize)
        requires
            isolate == NULL || known(self.all@, isolate),
        ensures
            r == if isolate != NULL {
                self.context_of(isolate)
            } else {
                self.context
            },
    {
        if isolate != NULL {
            self.fallback_ctx(isolate)
        } else {
            self.current_ctx()
        }
    }

    /// The current context, or the innermost one of the current isolate.
    pub open spec fn some_context(&self) -> usize {
        if self.context != NULL {
            self.context
        } else {
            self.context_of(self.now())
        }
    }

    /// The current context, or the innermost one of the current isolate.
    pub fn stable_ctx(&self) -> (r: usize)
        requires
            self.well_formed(),
        ensures
            r == self.some_context(),
    {
        let ctx = self.current_ctx();
        if ctx != NULL {
            return ctx;
        }
        self.fallback_ctx(self.current_iso())
    }

    /// Makes the innermost context of an isolate the current one.
    pub fn refresh_current_ctx(&mut self, isolate: usize)
        requires
            known(old(self).all@, isolate),
        ensures
            *final(self) == (Isolates {
                context: old(self).all@[isolate].top_context(),
                ..*old(self)
            }),
    {
        self.context = self.fallback_ctx(isolate);
    }

    /// Takes up a new isolate with this context.
    pub fn isolate_new(&mut self, isolate: usize, ctx: usize)
        requires
            old(self).well_formed(),
            isolate != NULL,
        ensures
            final(self).well_formed(),
            *final(self) == (Isolates { all: final(self).all, ..*old(self) }),
            final(self).all@ == old(self).all@.insert(isolate, final(self).all@[isolate]),
            ({
                let st = final(self).all@[isolate];
                &&& st.ctx == ctx
                &&& st.contexts@.len() == 0
                &&& st.handles@.len() == 0
                &&& st.data_slots@ == seq![NULL, NULL, NULL, NULL]
            }),
    {
        let mut data_slots: Vec<usize> = Vec::new();
        data_slots.push(NULL);
        data_slots.push(NULL);
        data_slots.push(NULL);
        data_slots.push(NULL);
        assert(data_slots@ =~= seq![NULL, NULL, NULL, NULL]);
        self.all.insert(
            isolate,
            IsoState { ctx, contexts: Vec::new(), handles: Vec::new(), data_slots },
        );
    }

    /// Disposes of an isolate. The result is its slots, in the order in which they are given back. No
    /// isolate is current afterwards.
    pub fn dispose(&mut self, isolate: usize) -> (r: Vec<usize>)
        requires
            old(self).well_formed(),
            isolate == NULL || known(old(self).all@, isolate),
        ensures
            final(self).well_formed(),
            isolate == NULL ==> *final(self) == *old(self) && r@.len() == 0,
            isolate != NULL ==> {
                &&& r@ == given_back(old(self).all@[isolate].handles@, 0)
                &&& final(self).all@ == old(self).all@.remove(isolate)
                &&& final(self).current == NULL
                &&& final(self).last == if old(self).last == isolate {
                    NULL
                } else {
                    old(self).last
                }
                &&& final(self).context == old(self).context
            },
    {
        let mut r: Vec<usize> = Vec::new();
        if isolate == NULL {
            return r;
        }
        if let Some(st) = self.all.get_mut(isolate) {
            r = pop_down_to(&mut st.handles, 0);
        }
        self.set_current(NULL);
        self.clear_last_iso(isolate);
        self.all.remove(isolate);
        assert(self.all@ =~= old(self).all@.remove(isolate));
        r
    }

    /// Enters an isolate.
    pub fn isolate_enter(&mut self, isolate: usize)
        requires
            old(self).well_formed(),
            isolate == NULL || known(old(self).all@, isolate),
        ensures
            final(self).well_formed(),
            *final(self) == (Isolates {
                current: isolate,
                last: if isolate != NULL {
                    isolate
                } else {
                    old(self).last
                },
                context: if isolate != NULL {
                    old(self).all@[isolate].top_context()
                } else {
                    old(self).context
                },
                ..*old(self)
            }),
    {
        self.set_current(isolate);
        if isolate != NULL {
            self.refresh_current_ctx(isolate);
        }
    }

    /// Leaves the current isolate.
    pub fn isolate_exit(&mut self)
        requires
            old(self).well_formed(),
        ensures
            final(self).well_formed(),
            *final(self) == (Isolates { current: NULL, ..*old(self) }),
    {
        self.set_current(NULL);
    }

    /// What the embedder left in a data slot; nothing in one that there is not.
    pub fn get_data(&self, isolate: usize, slot: u32) -> (r: usize)
        requires
            self.well_formed(),
            known(self.all@, isolate),
        ensures
            r == if slot < DATA_SLOTS {
                self.all@[isolate].data_slots@[slot as int]
            } else {
                NULL
            },
    {
        match self.all.get(isolate) {
            Some(st) => {
                if (slot as usize) < st.data_slots.len() {
                    st.data_slots[slot as usize]
                } else {
                    NULL
                }
            },
            None => NULL,
        }
    }

    /// Leaves a value in a data slot; one that there is not is passed over.
    pub fn set_data(&mut self, isolate: usize, slot: u32, data: usize)
        requires
            old(self).well_formed(),
            known(old(self).all@, isolate),
        ensures
            final(self).well_formed(),
            *final(self) == (Isolates { all: final(self).all, ..*old(self) }),
            final(self).all@ == old(self).all@.insert(isolate, final(self).all@[isolate]),
            ({
                let a = old(self).all@[isolate];
                let b = final(self).all@[isolate];
                &&& b == (IsoState { data_slots: b.data_slots, ..a })
                &&& b.data_slots@ == if slot < DATA_SLOTS {
                    a.data_slots@.update(slot as int, data)
                } else {
                    a.data_slots@
                }
            }),
    {
        if let Some(st) = self.all.get_mut(isolate) {
            if (slot as usize) < st.data_slots.len() {
                st.data_slots[slot as usize] = data;
            }
        }
    }

    /// Opens a scope in an isolate, which becomes the current one.
    pub fn scope_construct(&mut self, isolate: usize) -> (r: HandleScope)
        requires
            old(self).well_formed(),
            known(old(self).all@, isolate),
        ensures
            final(self).well_formed(),
            *final(self) == (Isolates {
                current: isolate,
                last: isolate,
                context: old(self).all@[isolate].top_context(),
                ..*old(self)
            }),
            r.isolate == isolate,
            r.depth == old(self).all@[isolate].handles@.len(),
    {
        self.isolate_enter(isolate);
        let depth = match self.all.get(isolate) {
            Some(st) => st.handles.len(),
            None => 0,
        };
        HandleScope { isolate, depth }
    }

    /// Closes a scope: the result is the slots that came after it, in the order in which they are given
    /// back.
    pub fn scope_destruct(&mut self, scope: HandleScope) -> (r: Vec<usize>)
        requires
            old(self).well_formed(),
            scope.isolate == NULL || known(old(self).all@, scope.isolate),
        ensures
            final(self).well_formed(),
            *final(self) == (Isolates { all: final(self).all, ..*old(self) }),
            scope.isolate == NULL ==> r@.len() == 0 && *final(self) == *old(self),
            scope.isolate != NULL ==> {
                let a = old(self).all@[scope.isolate];
                let b = final(self).all@[scope.isolate];
                &&& r@ == given_back(a.handles@, scope.depth as int)
                &&& b == (IsoState { handles: b.handles, ..a })
                &&& b.handles@ == kept_below(a.handles@, scope.depth as int)
                &&& final(self).all@ == old(self).all@.insert(scope.isolate, b)
            },
    {
        let mut r: Vec<usize> = Vec::new();
        if scope.isolate == NULL {
            return r;
        }
        if let Some(st) = self.all.get_mut(scope.isolate) {
            r = pop_down_to(&mut st.handles, scope.depth);
        }
        r
    }

    /// Keeps a slot in the current isolate. Without one the result is false, and the value is to be freed.
    pub fn intern(&mut self, slot: usize) -> (r: bool)
        requires
            old(self).well_formed(),
        ensures
            final(self).well_formed(),
            *final(self) == (Isolates { all: final(self).all, ..*old(self) }),
            r == (old(self).now() != NULL),
            !r ==> *final(self) == *old(self),
            r ==> {
                let iso = old(self).now();
                let a = old(self).all@[iso];
                let b = final(self).all@[iso];
                &&& b == (IsoState { handles: b.handles, ..a })
                &&& b.handles@ == a.handles@.push(slot)
                &&& final(self).all@ == old(self).all@.insert(iso, b)
            },
    {
        let iso = self.current_iso();
        if iso == NULL {
            return false;
        }
        if let Some(st) = self.all.get_mut(iso) {
            st.handles.push(slot);
        }
        true
    }

    /// The context in which a borrowed value gets another reference: this one, or the current one, or the
    /// innermost one of the current isolate.
    pub fn dup_context(&self, ctx: usize) -> (r: usize)
        requires
            self.well_formed(),
        ensures
            r == if ctx != NULL {
                ctx
            } else {
                self.some_context()
            },
    {
        if ctx != NULL {
            ctx
        } else {
            self.stable_ctx()
        }
    }

    /// The context that a new context stands for: the isolate's own. An isolate has but one.
    pub fn context_new(&self, isolate: usize) -> (r: usize)
        requires
            isolate == NULL || known(self.all@, isolate),
        ensures
            r == if isolate == NULL {
                NULL
            } else {
                self.all@[isolate].ctx
            },
    {
        if isolate == NULL {
            return NULL;
        }
        match self.all.get(isolate) {
            Some(st) => st.ctx,
            None => NULL,
        }
    }

    /// Enters a context of the current isolate, if there is one.
    pub fn context_enter(&mut self, ctx: usize)
        requires
            old(self).well_formed(),
        ensures
            final(self).well_formed(),
            old(self).now() == NULL ==> *final(self) == *old(self),
            old(self).now() != NULL ==> {
                let iso = old(self).now();
                let a = old(self).all@[iso];
                let b = final(self).all@[iso];
                &&& *final(self) == (Isolates { all: final(self).all, context: ctx, ..*old(self) })
                &&& b == (IsoState { contexts: b.contexts, ..a })
                &&& b.contexts@ == entered(a.contexts@, ctx)
                &&& final(self).all@ == old(self).all@.insert(iso, b)
            },
    {
        let iso = self.current_iso();
        if iso == NULL {
            return;
        }
        if let Some(st) = self.all.get_mut(iso) {
            st.contexts.push(ctx);
        }
        self.refresh_current_ctx(iso);
    }

    /// Leaves the innermost context of the current isolate, if there is one.
    pub fn context_exit(&mut self)
        requires
            old(self).well_formed(),
        ensures
            final(self).well_formed(),
            old(self).now() == NULL ==> *final(self) == *old(self),
            old(self).now() != NULL ==> {
                let iso = old(self).now();
                let a = old(self).all@[iso];
                let b = final(self).all@[iso];
                &&& *final(self) == (Isolates {
                    all: final(self).all,
                    context: b.top_context(),
                    ..*old(self)
                })
                &&& b == (IsoState { contexts: b.contexts, ..a })
                &&& b.contexts@ == left(a.contexts@)
                &&& final(self).all@ == old(self).all@.insert(iso, b)
            },
    {
        let iso = self.current_iso();
        if iso == NULL {
            return;
        }
        if let Some(st) = self.all.get_mut(iso) {
            let _ = st.contexts.pop();
        }
        self.refresh_current_ctx(iso);
    }
}

/// The context that a context handle stands for.
pub fn ctx_of(context: usize) -> (r: usize)
    ensures
        r == context,
{
    context
}

/// Takes the slots above `depth` off, the latest first.
fn pop_down_to(handles: &mut Vec<usize>, depth: usize) -> (r: Vec<usize>)
    ensures
        r@ == given_back(old(handles)@, depth as int),
        final(handles)@ == kept_below(old(handles)@, depth as int),
{
    let ghost before = handles@;
    let mut r: Vec<usize> = Vec::new();
    while handles.len() > depth
        invariant
            handles@.len() <= before.len(),
            depth < before.len() ==> depth <= handles@.len(),
            depth >= before.len() ==> handles@ == before,
            handles@ =~= before.take(handles@.len() as int),
            r@ =~= before.skip(handles@.len() as int).reverse(),
        decreases handles.len(),
    {
        let ghost n = handles@.len() as int;
        match handles.pop() {
            Some(slot) => {
                assert(slot == before[n - 1]);
                r.push(slot);
                assert(r@ =~= before.skip(n - 1).reverse());
            },
            None => {},
        }
    }
    r
}

/// A scope gives back exactly the slots that were kept after it was opened, each once, the latest first,
/// and leaves those from before.
pub proof fn law_scope_restores_handles(before: Seq<usize>, kept: Seq<usize>)
    ensures
        given_back(before + kept, before.len() as int) == kept.reverse(),
        kept_below(before + kept, before.len() as int) == before,
{
    let all = before + kept;
    assert(all.skip(before.len() as int) =~= kept);
    assert(all.take(before.len() as int) =~= before);
    if kept.len() == 0 {
        assert(kept.reverse() =~= seq![]);
    }
}

/// Leaving a context undoes entering it.
pub proof fn law_exit_undoes_enter(contexts: Seq<usize>, ctx: usize)
    ensures
        left(entered(contexts, ctx)) == contexts,
        entered(contexts, ctx).last() == ctx,
{
    assert(contexts.push(ctx).drop_last() =~= contexts);
}

/// The context that counts is the one entered last, or the one that the isolate was made with.
pub proof fn law_innermost_context_counts(s: IsoState)
    ensures
        s.contexts@.len() == 0 ==> s.top_context() == s.ctx,
        s.contexts@.len() > 0 ==> s.top_context() == s.contexts@[s.contexts@.len() - 1],
{
}

/// The isolate that counts is the current one, or the one that was current last.
pub proof fn law_isolate_that_counts(s: Isolates)
    ensures
        s.current != 0 ==> s.now() == s.current,
        s.current == 0 ==> s.now() == s.last,
        s.context != 0 ==> s.some_context() == s.context,
        s.context == 0 && s.now() == 0 ==> s.some_context() == 0,
        s.context == 0 && s.now() != 0 ==> s.some_context() == s.all@[s.now()].top_context(),
{
}

/// Leaving without having entered changes nothing, and a scope that kept nothing gives nothing back.
pub proof fn law_nothing_to_undo(contexts: Seq<usize>, handles: Seq<usize>, depth: int)
    requires
        depth >= handles.len(),
    ensures
        left(seq![]) == Seq::<usize>::empty(),
        given_back(handles, depth).len() == 0,
        kept_below(handles, depth) == handles,
        entered(contexts, 0).len() == contexts.len() + 1,
{
    if depth == handles.len() {
        assert(handles.skip(depth).reverse().len() == 0);
    }
}

/// The latest handle is given back first.
pub proof fn law_latest_handle_first(handles: Seq<usize>, depth: int, i: int)
    requires
        0 <= depth < handles.len(),
        0 <= i < handles.len() - depth,
    ensures
        given_back(handles, depth).len() == handles.len() - depth,
        given_back(handles, depth)[i] == handles[handles.len() - 1 - i],
        kept_below(handles, depth).len() == depth,
{
}

/// What was left with an isolate is read back from its slot; there are four of them.
pub proof fn law_data_is_read_back(a: Isolates, b: Isolates, isolate: usize, slot: u32, data: usize, r: usize)
    requires
        a.well_formed() && b.well_formed(),
        known(a.all@, isolate),
        exists|m: &mut Isolates|
            *m == a && *final(m) == b && #[trigger] call_ensures(Isolates::set_data, (m, isolate, slot, data), ()),
        call_ensures(Isolates::get_data, (&b, isolate, slot), r),
    ensures
        slot < 4 ==> r == data,
        slot >= 4 ==> r == 0,
{
}

/// A context that was entered counts until it is left; then the one before counts again.
pub proof fn law_contexts_are_entered_and_left(a: Isolates, b: Isolates, c: Isolates, ctx: usize)
    requires
        a.well_formed(),
        a.now() != 0,
        exists|m: &mut Isolates|
            *m == a && *final(m) == b && #[trigger] call_ensures(Isolates::context_enter, (m, ctx), ()),
        exists|m: &mut Isolates|
            *m == b && *final(m) == c && #[trigger] call_ensures(Isolates::context_exit, (m,), ()),
    ensures
        b.context == ctx,
        b.all@[a.now()].top_context() == ctx,
        c.context == a.all@[a.now()].top_context(),
        c.all@[a.now()].contexts@ == a.all@[a.now()].contexts@,
        b.now() == a.now() && c.now() == a.now(),
{
    let iso = a.now();
    law_exit_undoes_enter(a.all@[iso].contexts@, ctx);
}

/// A scope gives back what was kept in it, the latest first, and nothing that was kept before.
pub proof fn law_scope_gives_back(a: Isolates, b: Isolates, c: Isolates, d: Isolates, isolate: usize, slot: usize, scope: HandleScope, kept: bool, back: Vec<usize>)
    requires
        a.well_formed(),
        known(a.all@, isolate),
        exists|m: &mut Isolates|
            *m == a && *final(m) == b && #[trigger] call_ensures(Isolates::scope_construct, (m, isolate), scope),
        exists|m: &mut Isolates|
            *m == b && *final(m) == c && #[trigger] call_ensures(Isolates::intern, (m, slot), kept),
        exists|m: &mut Isolates|
            *m == c && *final(m) == d && #[trigger] call_ensures(Isolates::scope_destruct, (m, scope), back),
    ensures
        b.current == isolate,
        kept,
        back@ == seq![slot],
        d.all@[isolate].handles@ == a.all@[isolate].handles@,
{
    let h = a.all@[isolate].handles@;
    law_scope_restores_handles(h, seq![slot]);
    assert(h.push(slot) =~= h + seq![slot]);
    assert(seq![slot].reverse() =~= seq![slot]);
}

/// An isolate that was made has its context, which counts once it is entered; leaving it leaves it the last
/// one.
pub proof fn law_isolates_are_entered_and_left(a: Isolates, b: Isolates, c: Isolates, d: Isolates, isolate: usize, ctx: usize)
    requires
        a.well_formed(),
        isolate != 0,
        exists|m: &mut Isolates|
            *m == a && *final(m) == b && #[trigger] call_ensures(Isolates::isolate_new, (m, isolate, ctx), ()),
        exists|m: &mut Isolates|
            *m == b && *final(m) == c && #[trigger] call_ensures(Isolates::isolate_enter, (m, isolate), ()),
        exists|m: &mut Isolates|
            *m == c && *final(m) == d && #[trigger] call_ensures(Isolates::isolate_exit, (m,), ()),
    ensures
        b.all@[isolate].ctx == ctx,
        b.current == a.current,
        c.current == isolate && c.now() == isolate && c.context == ctx,
        d.current == 0 && d.now() == isolate,
        d.context == ctx,
{
}

/// A disposed isolate is gone, gives all its handles back and stands in for none any more.
pub proof fn law_disposed_isolate_is_gone(a: Isolates, b: Isolates, isolate: usize, back: Vec<usize>)
    requires
        a.well_formed(),
        known(a.all@, isolate),
        exists|m: &mut Isolates|
            *m == a && *final(m) == b && #[trigger] call_ensures(Isolates::dispose, (m, isolate), back),
    ensures
        !b.all@.dom().contains(isolate),
        back@ == a.all@[isolate].handles@.reverse(),
        b.now() != isolate,
{
    let h = a.all@[isolate].handles@;
    assert(h.skip(0) =~= h);
    if h.len() == 0 {
        assert(h.reverse() =~= seq![]);
    }
}

/// An isolate that is forgotten as the last one stands in no more; another stays.
pub proof fn law_last_isolate_is_forgotten(a: Isolates, b: Isolates, isolate: usize)
    requires
        a.well_formed(),
        exists|m: &mut Isolates|
            *m == a && *final(m) == b && #[trigger] call_ensures(Isolates::clear_last_iso, (m, isolate), ()),
    ensures
        a.last == isolate ==> b.last == 0,
        a.last != isolate ==> b.last == a.last,
        b.current == a.current && b.context == a.context && b.all@ == a.all@,
{
}

/// The context of an isolate is asked for in it; without one the current context counts.
pub proof fn law_contexts_asked_for(s: Isolates, isolate: usize, r: usize, current: usize, made_with: usize, none: usize)
    requires
        known(s.all@, isolate),
        call_ensures(Isolates::ctx_for, (&s, isolate), r),
        call_ensures(Isolates::ctx_for, (&s, 0usize), current),
        call_ensures(Isolates::context_new, (&s, isolate), made_with),
        call_ensures(Isolates::context_new, (&s, 0usize), none),
    ensures
        r == s.all@[isolate].top_context(),
        current == s.context,
        made_with == s.all@[isolate].ctx,
        none == 0,
{
}

} // verus!
