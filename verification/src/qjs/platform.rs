//! Shared pointers to the platform, which has nothing to do but to be there.

use crate::handle_map::HandleMap;
use crate::qjs::isolate::NULL;
use vstd::prelude::*;

verus! {

/// A shared pointer: the platform, and the cell that counts the pointers to it.
#[derive(Clone, Copy, PartialEq, Eq, Structural, Debug)]
pub struct PlatformPtr {
    pub platform: usize,
    pub refcount: usize,
}

/// The cells that count pointers.
pub struct Platforms {
    pub counts: HandleMap<usize>,
}

/// The shared pointer to nothing.
pub open spec fn empty_pointer() -> PlatformPtr {
    PlatformPtr { platform: NULL, refcount: NULL }
}

/// The cell of a pointer is there and counts it.
pub open spec fn counted(counts: Map<usize, usize>, p: PlatformPtr) -> bool {
    p.refcount != NULL ==> counts.dom().contains(p.refcount) && counts[p.refcount] >= 1
}

/// The counts after a pointer was emptied.
pub open spec fn counts_after_reset(counts: Map<usize, usize>, p: PlatformPtr) -> Map<usize, usize> {
    if p.refcount == NULL {
        counts
    } else if counts[p.refcount] == 1 {
        counts.remove(p.refcount)
    } else {
        counts.insert(p.refcount, (counts[p.refcount] - 1) as usize)
    }
}

/// The counts after a pointer was copied.
pub open spec fn counts_after_copy(counts: Map<usize, usize>, p: PlatformPtr) -> Map<usize, usize> {
    if p.refcount == NULL {
        counts
    } else {
        counts.insert(p.refcount, (counts[p.refcount] + 1) as usize)
    }
}

impl Platforms {
    /// There is no pointer.
    pub fn new() -> (r: Platforms)
        ensures
            r.counts@ == Map::<usize, usize>::empty(),
    {
        Platforms { counts: HandleMap::new() }
    }

    /// The shared pointer to a platform that had one owner; `cell` will count.
    pub fn convert(&mut self, raw: usize, cell: usize) -> (r: PlatformPtr)
        ensures
            r == if raw == NULL {
                empty_pointer()
            } else {
                PlatformPtr { platform: raw, refcount: cell }
            },
            final(self).counts@ == if raw == NULL {
                old(self).counts@
            } else {
                old(self).counts@.insert(cell, 1)
            },
    {
        if raw == NULL {
            return PlatformPtr { platform: NULL, refcount: NULL };
        }
        self.counts.insert(cell, 1);
        PlatformPtr { platform: raw, refcount: cell }
    }

    /// The platform that a pointer leads to.
    pub fn get(&self, pointer: Option<PlatformPtr>) -> (r: usize)
        ensures
            r == match pointer {
                Some(p) => p.platform,
                None => NULL,
            },
    {
        match pointer {
            Some(p) => p.platform,
            None => NULL,
        }
    }

    /// A copy of a pointer.
    pub fn copy(&mut self, pointer: Option<PlatformPtr>) -> (r: PlatformPtr)
        requires
            pointer matches Some(p) ==> counted(old(self).counts@, p) && (p.refcount != NULL ==> old(
                self,
            ).counts@[p.refcount] < usize::MAX),
        ensures
            match pointer {
                Some(p) => r == p && final(self).counts@ == counts_after_copy(old(self).counts@, p),
                None => r == empty_pointer() && final(self).counts@ == old(self).counts@,
            },
    {
        match pointer {
            None => PlatformPtr { platform: NULL, refcount: NULL },
            Some(p) => {
                if p.refcount != NULL {
                    if let Some(n) = self.counts.get_mut(p.refcount) {
                        *n = *n + 1;
                    }
                }
                p
            },
        }
    }

    /// Empties a pointer. The result is the platform that is to be freed, if this was the last pointer to
    /// one.
    pub fn reset(&mut self, pointer: &mut PlatformPtr) -> (r: usize)
        requires
            counted(old(self).counts@, *old(pointer)),
        ensures
            *final(pointer) == empty_pointer(),
            final(self).counts@ == counts_after_reset(old(self).counts@, *old(pointer)),
            r == if old(pointer).refcount != NULL && old(self).counts@[old(pointer).refcount] == 1 {
                old(pointer).platform
            } else {
                NULL
            },
    {
        let p = *pointer;
        *pointer = PlatformPtr { platform: NULL, refcount: NULL };
        if p.refcount == NULL {
            return NULL;
        }
        let mut last = false;
        if let Some(n) = self.counts.get_mut(p.refcount) {
            if *n == 1 {
                last = true;
            } else {
                *n = *n - 1;
            }
        }
        if last {
            self.counts.remove(p.refcount);
            assert(self.counts@ =~= old(self).counts@.remove(p.refcount));
            return p.platform;
        }
        NULL
    }

    /// How many pointers there are to the platform of this one.
    pub fn use_count(&self, pointer: Option<PlatformPtr>) -> (r: usize)
        requires
            pointer matches Some(p) ==> counted(self.counts@, p),
        ensures
            r == match pointer {
                Some(p) => if p.refcount == NULL {
                    0
                } else {
                    self.counts@[p.refcount]
                },
                None => 0,
            },
    {
        match pointer {
            None => 0,
            Some(p) => {
                if p.refcount == NULL {
                    return 0;
                }
                match self.counts.get(p.refcount) {
                    Some(n) => *n,
                    None => 0,
                }
            },
        }
    }
}

/// Emptying a copy leaves the counts as they were before it was made.
pub proof fn law_reset_undoes_copy(counts: Map<usize, usize>, p: PlatformPtr)
    requires
        counted(counts, p),
        p.refcount != NULL ==> counts[p.refcount] < usize::MAX,
    ensures
        counts_after_reset(counts_after_copy(counts, p), p) == counts,
        counted(counts_after_copy(counts, p), p),
{
    assert(counts_after_reset(counts_after_copy(counts, p), p) =~= counts);
}

/// A copy adds one to the count of the platform, and emptying a pointer takes one away; the last pointer takes
/// the count with it. Other counts stay.
pub proof fn law_pointers_are_counted(counts: Map<usize, usize>, p: PlatformPtr, other: usize)
    requires
        counted(counts, p),
        p.refcount != 0 ==> counts[p.refcount] < usize::MAX,
    ensures
        p.refcount != 0 ==> counts_after_copy(counts, p)[p.refcount] == counts[p.refcount] + 1,
        p.refcount != 0 && counts[p.refcount] > 1 ==> counts_after_reset(counts, p)[p.refcount] + 1
            == counts[p.refcount] && counts_after_reset(counts, p).dom() == counts.dom(),
        p.refcount != 0 && counts[p.refcount] == 1 ==> counts_after_reset(counts, p).dom()
            == counts.dom().remove(p.refcount),
        p.refcount == 0 ==> counts_after_copy(counts, p) == counts && counts_after_reset(counts, p)
            == counts,
        other != p.refcount ==> counts_after_copy(counts, p)[other] == counts[other]
            && counts_after_reset(counts, p)[other] == counts[other],
        empty_pointer().platform == 0 && empty_pointer().refcount == 0,
{
    assert(p.refcount != 0 && counts[p.refcount] > 1 ==> counts_after_reset(counts, p).dom()
        =~= counts.dom());
    assert(p.refcount != 0 && counts[p.refcount] == 1 ==> counts_after_reset(counts, p).dom()
        =~= counts.dom().remove(p.refcount));
}

/// The platform of a pointer is read off it, and its count off its cell.
pub proof fn law_pointers_are_read(
    all: Platforms,
    p: PlatformPtr,
    platform: usize,
    uses: usize,
    nothing: usize,
    none: usize,
)
    requires
        counted(all.counts@, p),
        call_ensures(Platforms::get, (&all, Some(p)), platform),
        call_ensures(Platforms::use_count, (&all, Some(p)), uses),
        call_ensures(Platforms::get, (&all, None), nothing),
        call_ensures(Platforms::use_count, (&all, None), none),
    ensures
        platform == p.platform,
        p.refcount != 0 ==> uses == all.counts@[p.refcount] && uses >= 1,
        p.refcount == 0 ==> uses == 0,
        nothing == 0 && none == 0,
{
}

/// A platform that is shared anew has one pointer, and emptying it hands the platform back.
pub proof fn law_shared_platform_comes_back(
    a: Platforms,
    b: Platforms,
    c: Platforms,
    raw: usize,
    cell: usize,
    p: PlatformPtr,
    q: PlatformPtr,
    freed: usize,
)
    requires
        raw != 0 && cell != 0,
        exists|m: &mut Platforms|
            *m == a && *final(m) == b && #[trigger] call_ensures(Platforms::convert, (m, raw, cell), p),
        exists|m: &mut Platforms, n: &mut PlatformPtr|
            *m == b && *final(m) == c && *n == p && *final(n) == q && #[trigger] call_ensures(
                Platforms::reset,
                (m, n),
                freed,
            ),
    ensures
        p.platform == raw,
        b.counts@[p.refcount] == 1,
        freed == raw,
        q.platform == 0 && q.refcount == 0,
        !c.counts@.dom().contains(cell),
{
}

/// A copy keeps the platform: emptying one of two pointers frees nothing.
pub proof fn law_copy_keeps_the_platform(
    a: Platforms,
    b: Platforms,
    c: Platforms,
    p: PlatformPtr,
    copied: PlatformPtr,
    q: PlatformPtr,
    freed: usize,
)
    requires
        p.refcount != 0,
        counted(a.counts@, p),
        a.counts@[p.refcount] < usize::MAX,
        exists|m: &mut Platforms|
            *m == a && *final(m) == b && #[trigger] call_ensures(Platforms::copy, (m, Some(p)), copied),
        exists|m: &mut Platforms, n: &mut PlatformPtr|
            *m == b && *final(m) == c && *n == copied && *final(n) == q && #[trigger] call_ensures(
                Platforms::reset,
                (m, n),
                freed,
            ),
    ensures
        copied == p,
        freed == 0,
        c.counts@ == a.counts@,
{
    law_reset_undoes_copy(a.counts@, p);
}

} // verus!
