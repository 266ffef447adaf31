//! What the embedder leaves with contexts and isolates.

use crate::handle_map::HandleMap;
use crate::qjs::isolate::NULL;
use vstd::prelude::*;

verus! {

/// Slots by context. A slot that was never set holds nothing.
pub struct EmbedderData {
    pub slots: HandleMap<Vec<usize>>,
}

/// The slots of a context.
pub open spec fn slots_of(slots: Map<usize, Vec<usize>>, ctx: usize) -> Seq<usize> {
    if slots.dom().contains(ctx) {
        slots[ctx]@
    } else {
        seq![]
    }
}

/// The slots once there are so many.
pub open spec fn grown(s: Seq<usize>, n: int) -> Seq<usize> {
    if s.len() >= n {
        s
    } else {
        s + Seq::new((n - s.len()) as nat, |i: int| NULL)
    }
}

/// The slots with a value in one of them; there is none with a negative number.
pub open spec fn stored(s: Seq<usize>, index: int, value: usize) -> Seq<usize> {
    if index < 0 {
        s
    } else {
        grown(s, index + 1).update(index, value)
    }
}

/// What a slot holds.
pub open spec fn slot(s: Seq<usize>, index: int) -> usize {
    if 0 <= index < s.len() {
        s[index]
    } else {
        NULL
    }
}

impl EmbedderData {
    /// Nothing was left.
    pub fn new() -> (r: EmbedderData)
        ensures
            r.slots@ == Map::<usize, Vec<usize>>::empty(),
    {
        EmbedderData { slots: HandleMap::new() }
    }

    /// How many slots a context has.
    pub fn count(&self, ctx: usize) -> (r: usize)
        ensures
            r == slots_of(self.slots@, ctx).len(),
    {
        match self.slots.get(ctx) {
            Some(v) => v.len(),
            None => 0,
        }
    }

    /// What a slot of a context holds.
    pub fn get(&self, ctx: usize, index: i32) -> (r: usize)
        ensures
            r == slot(slots_of(self.slots@, ctx), index as int),
    {
        if index < 0 {
            return NULL;
        }
        match self.slots.get(ctx) {
            Some(v) => {
                if (index as usize) < v.len() {
                    v[index as usize]
                } else {
                    NULL
                }
            },
            None => NULL,
        }
    }

    /// Puts a value into a slot of a context. The result is what the slot held.
    pub fn set(&mut self, ctx: usize, index: i32, value: usize) -> (r: usize)
        ensures
            r == slot(slots_of(old(self).slots@, ctx), index as int),
            slots_of(final(self).slots@, ctx) == stored(
                slots_of(old(self).slots@, ctx),
                index as int,
                value,
            ),
            forall|k: usize|
                k != ctx ==> #[trigger] slots_of(final(self).slots@, k) == slots_of(
                    old(self).slots@,
                    k,
                ),
    {
        if index < 0 {
            return NULL;
        }
        if !self.slots.contains(ctx) {
            self.slots.insert(ctx, Vec::new());
        }
        let ghost before = slots_of(old(self).slots@, ctx);
        assert(slots_of(self.slots@, ctx) =~= before);
        let mut previous: usize = NULL;
        if let Some(v) = self.slots.get_mut(ctx) {
            let i = index as usize;
            while v.len() <= i
                invariant
                    v@.len() >= before.len(),
                    v@.len() <= i + 1 || v@.len() == before.len(),
                    v@ =~= grown(before, v@.len() as int),
                decreases i + 1 - v.len(),
            {
                v.push(NULL);
            }
            previous = v[i];
            v[i] = value;
            assert(v@ =~= stored(before, i as int, value));
        }
        previous
    }
}

/// What was put into a slot is found there, and the other slots hold what they held.
pub proof fn law_stored_value_is_found(s: Seq<usize>, index: int, value: usize, other: int)
    requires
        index >= 0,
    ensures
        slot(stored(s, index, value), index) == value,
        other != index ==> slot(stored(s, index, value), other) == slot(s, other),
{
}

/// A value by context: the security token.
pub struct SecurityTokens {
    pub tokens: HandleMap<usize>,
}

impl SecurityTokens {
    /// No context has a token.
    pub fn new() -> (r: SecurityTokens)
        ensures
            r.tokens@ == Map::<usize, usize>::empty(),
    {
        SecurityTokens { tokens: HandleMap::new() }
    }

    /// Gives a context a token. The result is the one that it had.
    pub fn set_security_token(&mut self, ctx: usize, value: usize) -> (r: Option<usize>)
        ensures
            r == if ctx != NULL && old(self).tokens@.dom().contains(ctx) {
                Some(old(self).tokens@[ctx])
            } else {
                None
            },
            final(self).tokens@ == if ctx == NULL {
                old(self).tokens@
            } else {
                old(self).tokens@.insert(ctx, value)
            },
    {
        if ctx == NULL {
            return None;
        }
        let previous = match self.tokens.get(ctx) {
            Some(v) => Some(*v),
            None => None,
        };
        self.tokens.insert(ctx, value);
        previous
    }

    /// The token of a context.
    pub fn get_security_token(&self, ctx: usize) -> (r: Option<usize>)
        ensures
            r == if ctx != NULL && self.tokens@.dom().contains(ctx) {
                Some(self.tokens@[ctx])
            } else {
                None
            },
    {
        if ctx == NULL {
            return None;
        }
        match self.tokens.get(ctx) {
            Some(v) => Some(*v),
            None => None,
        }
    }
}

/// The value that follows asynchronous calls around.
pub struct ContinuationData {
    pub value: usize,
}

impl ContinuationData {
    /// Sets the value. The result is the one before, whose reference is to be freed.
    pub fn replace(&mut self, value: usize) -> (r: usize)
        ensures
            r == old(self).value,
            final(self).value == value,
    {
        let before = self.value;
        self.value = value;
        before
    }
}

/// What is reported of a promise: that it was rejected without a handler, or that it got one afterwards.
pub fn promise_reject_event(is_handled: i32) -> (r: usize)
    ensures
        r == if is_handled != 0 {
            1usize
        } else {
            0usize
        },
{
    if is_handled != 0 {
        1
    } else {
        0
    }
}

/// What a checkpoint does after a job.
#[derive(Clone, Copy, PartialEq, Eq, Structural, Debug)]
pub enum Checkpoint {
    /// There are no more jobs.
    Stop,
    /// Run the next one.
    GoOn,
    /// Drop the exception that the job left, then run the next one.
    DropException,
}

/// What a checkpoint does after a job, by what the engine answered: the number of jobs that ran, or a
/// negative number where one threw.
pub fn checkpoint_step(answer: i32) -> (r: Checkpoint)
    ensures
        r == if answer == 0 {
            Checkpoint::Stop
        } else if answer < 0 {
            Checkpoint::DropException
        } else {
            Checkpoint::GoOn
        },
{
    if answer == 0 {
        Checkpoint::Stop
    } else if answer < 0 {
        Checkpoint::DropException
    } else {
        Checkpoint::GoOn
    }
}

/// The bytes that the embedder holds outside the heap.
pub struct ExternalMemory {
    pub total: i64,
}

impl ExternalMemory {
    /// Notes a change of so many bytes. The result is the new total.
    pub fn adjust(&mut self, change_in_bytes: i64) -> (r: i64)
        requires
            i64::MIN <= old(self).total + change_in_bytes <= i64::MAX,
        ensures
            r == old(self).total + change_in_bytes,
            final(self).total == r,
    {
        self.total = self.total + change_in_bytes;
        self.total
    }
}

/// The size and the alignment of an object that the embedder wants to be collected, with so many bytes
/// behind its head of 8.
pub fn garbage_layout(additional_bytes: usize, align: usize) -> (r: (usize, usize))
    requires
        additional_bytes + 8 <= usize::MAX,
    ensures
        r.0 == additional_bytes + 8,
        r.1 == if align < 8 {
            8
        } else {
            align
        },
{
    let size = additional_bytes + 8;
    if align < 8 {
        (size, 8)
    } else {
        (size, align)
    }
}

/// The size of a map or a set by the number that the engine read, if it could read one.
pub fn collection_size(n: Option<i64>) -> (r: usize)
    ensures
        r == match n {
            Some(k) => if k < 0 {
                0
            } else {
                k as usize
            },
            None => 0,
        },
{
    match n {
        Some(k) => {
            if k < 0 {
                0
            } else {
                k as usize
            }
        },
        None => 0,
    }
}

/// The limits that an isolate is made with. The engine sizes its own heap: they are kept and read back.
#[derive(Clone, Copy, PartialEq, Eq, Structural, Debug)]
pub struct ResourceConstraints {
    pub code_range_size: usize,
    pub max_old_generation_size: usize,
    pub max_young_generation_size: usize,
    pub initial_old_generation_size: usize,
    pub initial_young_generation_size: usize,
    pub physical_memory_size: u64,
    pub stack_limit: usize,
}

impl ResourceConstraints {
    /// No limit.
    pub open spec fn none() -> ResourceConstraints {
        ResourceConstraints {
            code_range_size: 0,
            max_old_generation_size: 0,
            max_young_generation_size: 0,
            initial_old_generation_size: 0,
            initial_young_generation_size: 0,
            physical_memory_size: 0,
            stack_limit: 0,
        }
    }

    /// Lifts all limits, whatever memory there is.
    pub fn configure_defaults(&mut self, _physical_memory: u64, _virtual_memory_limit: u64)
        ensures
            *final(self) == ResourceConstraints::none(),
    {
        self.code_range_size = 0;
        self.max_old_generation_size = 0;
        self.max_young_generation_size = 0;
        self.initial_old_generation_size = 0;
        self.initial_young_generation_size = 0;
        self.physical_memory_size = 0;
        self.stack_limit = 0;
    }
}

/// The slots before the highest one that was ever set are there, and hold nothing until they are set; a
/// negative number changes nothing.
pub proof fn law_slots_grow(s: Seq<usize>, index: int, value: usize, k: int)
    ensures
        index < 0 ==> stored(s, index, value) == s,
        0 <= index < s.len() ==> stored(s, index, value).len() == s.len(),
        index >= s.len() ==> stored(s, index, value).len() == index + 1,
        s.len() <= k < index ==> stored(s, index, value)[k] == 0,
        slot(s, -1) == 0,
        slot(s, s.len() as int) == 0,
        0 <= k < s.len() ==> slot(s, k) == s[k],
{
}

/// A context without slots has none.
pub proof fn law_slots_by_context(slots: Map<usize, Vec<usize>>, ctx: usize)
    ensures
        slots.dom().contains(ctx) ==> slots_of(slots, ctx) == slots[ctx]@,
        !slots.dom().contains(ctx) ==> slots_of(slots, ctx).len() == 0,
{
}

/// What is told of a promise, of a job and of a collection, by the engine's numbers.
pub proof fn law_engine_answers(
    n: i32,
    event: usize,
    step: Checkpoint,
    size: Option<i64>,
    count: usize,
)
    requires
        call_ensures(promise_reject_event, (n,), event),
        call_ensures(checkpoint_step, (n,), step),
        call_ensures(collection_size, (size,), count),
    ensures
        n == 0 ==> event == 0 && step == Checkpoint::Stop,
        n != 0 ==> event == 1 && step != Checkpoint::Stop,
        n < 0 <==> step == Checkpoint::DropException,
        n > 0 <==> step == Checkpoint::GoOn,
        size is None || size->0 < 0 ==> count == 0,
        size is Some && 0 <= size->0 <= u32::MAX ==> count == size->0,
{
}

/// An object that is to be collected has room for its head and is aligned at least as its head is.
pub proof fn law_garbage_layout(bytes: usize, align: usize, r: (usize, usize))
    requires
        bytes + 8 <= usize::MAX,
        call_ensures(garbage_layout, (bytes, align), r),
    ensures
        r.0 - bytes == 8,
        r.1 >= 8 && r.1 >= align,
        r.1 == 8 || r.1 == align,
{
}

/// Without limits every number is zero.
pub proof fn law_no_limits()
    ensures
        ({
            let r = ResourceConstraints::none();
            &&& r.code_range_size == 0 && r.max_old_generation_size == 0
            &&& r.max_young_generation_size == 0 && r.initial_old_generation_size == 0
            &&& r.initial_young_generation_size == 0 && r.physical_memory_size == 0
            &&& r.stack_limit == 0
        }),
{
}

/// What was put into a slot of a context is read back from it, and what it held before comes back.
pub proof fn law_slot_is_read_back(
    a: EmbedderData,
    b: EmbedderData,
    ctx: usize,
    index: i32,
    value: usize,
    before: usize,
    was: usize,
    r: usize,
)
    requires
        index >= 0,
        call_ensures(EmbedderData::get, (&a, ctx, index), was),
        exists|m: &mut EmbedderData|
            *m == a && *final(m) == b && #[trigger] call_ensures(EmbedderData::set, (m, ctx, index, value), before),
        call_ensures(EmbedderData::get, (&b, ctx, index), r),
    ensures
        r == value,
        before == was,
{
    law_stored_value_is_found(slots_of(a.slots@, ctx), index as int, value, index as int);
}

/// A token that was given to a context is the one that it has, and the one before comes back; no context has
/// none.
pub proof fn law_token_is_read_back(
    a: SecurityTokens,
    b: SecurityTokens,
    ctx: usize,
    value: usize,
    was: Option<usize>,
    before: Option<usize>,
    r: Option<usize>,
)
    requires
        call_ensures(SecurityTokens::get_security_token, (&a, ctx), was),
        exists|m: &mut SecurityTokens|
            *m == a && *final(m) == b && #[trigger] call_ensures(SecurityTokens::set_security_token, (m, ctx, value), before),
        call_ensures(SecurityTokens::get_security_token, (&b, ctx), r),
    ensures
        before == was,
        ctx != 0 ==> r == Some(value),
        ctx == 0 ==> r is None && b.tokens@ == a.tokens@,
{
}

/// A change and its opposite leave the total as it was.
pub proof fn law_changes_add_up(a: ExternalMemory, b: ExternalMemory, n: i64, total: i64)
    requires
        i64::MIN <= a.total + n <= i64::MAX,
        exists|m: &mut ExternalMemory|
            *m == a && *final(m) == b && #[trigger] call_ensures(ExternalMemory::adjust, (m, n), total),
    ensures
        total - a.total == n,
        b.total == total,
{
}

} // verus!
