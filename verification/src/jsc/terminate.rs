//! Ending scripts from outside, and warning the embedder when the heap fills up.
//!
//! The engine asks from time to time, while a script runs, whether it is to end.

use crate::handle_map::HandleMap;
use vstd::prelude::*;

verus! {

/// The limit that a warning goes by where none was configured: 16 MiB.
pub const DEFAULT_LIMIT: usize = 16_777_216;

/// What is watched of an isolate.
#[derive(Clone, Copy, PartialEq, Eq, Structural, Debug)]
pub struct Watch {
    /// The group of contexts that the engine watches.
    pub group: usize,
    /// The script is to end.
    pub terminate: bool,
    /// The heap's limit in bytes; 0 for none.
    pub heap_limit: usize,
    /// The limit at the beginning.
    pub initial_heap_limit: usize,
    /// The embedder's function that is warned; 0 for none.
    pub heap_cb: usize,
    /// What it is given.
    pub heap_cb_data: usize,
    /// It is running.
    pub in_heap_cb: bool,
}

/// What the embedder's function is called with.
#[derive(Clone, Copy, PartialEq, Eq, Structural, Debug)]
pub struct HeapWarning {
    pub callback: usize,
    pub data: usize,
    pub limit: usize,
    pub initial: usize,
}

/// All isolates that are watched.
pub struct Watches {
    pub all: HandleMap<Watch>,
}

/// No isolate is watched.
pub fn registry() -> (r: Watches)
    ensures
        r.all@ == Map::<usize, Watch>::empty(),
{
    Watches { all: HandleMap::new() }
}

/// The heap is near its limit. Where it cannot be measured it counts as near: whoever set a function to be
/// warned and got here is allocating.
pub open spec fn is_near(live: int, limit: int) -> bool {
    live == 0 || live >= limit
}

/// The embedder is to be warned.
pub open spec fn warns(w: Watch, live: int) -> bool {
    w.heap_cb != 0 && !w.in_heap_cb && w.heap_limit != 0 && is_near(live, w.heap_limit as int)
}

/// The watch while the embedder is being warned.
pub open spec fn warning(w: Watch) -> Watch {
    Watch { in_heap_cb: true, ..w }
}

/// The watch after the embedder was warned at the limit `limit` and answered with a new one. The limit is
/// raised, never lowered.
pub open spec fn warned(w: Watch, limit: usize, new_limit: usize) -> Watch {
    Watch {
        heap_limit: if new_limit > limit {
            new_limit
        } else {
            w.heap_limit
        },
        in_heap_cb: false,
        ..w
    }
}

/// The watches with another one for this isolate, if it is watched.
pub open spec fn changed(all: Map<usize, Watch>, iso: usize, w: Watch) -> Map<usize, Watch> {
    if iso != 0 && all.dom().contains(iso) {
        all.insert(iso, w)
    } else {
        all
    }
}

/// The watch with a function that is warned.
pub open spec fn with_callback(w: Watch, callback: usize, data: usize) -> Watch {
    Watch {
        heap_cb: callback,
        heap_cb_data: data,
        heap_limit: if w.heap_limit == 0 {
            DEFAULT_LIMIT
        } else {
            w.heap_limit
        },
        initial_heap_limit: if w.heap_limit == 0 {
            DEFAULT_LIMIT
        } else {
            w.initial_heap_limit
        },
        ..w
    }
}

/// The script of an isolate is to end.
pub open spec fn terminating(all: Map<usize, Watch>, iso: usize) -> bool {
    iso != 0 && all.dom().contains(iso) && all[iso].terminate
}

impl Watches {
    /// The watch of an isolate.
    pub fn lookup(&self, iso: usize) -> (r: Option<Watch>)
        ensures
            r == if iso != 0 && self.all@.dom().contains(iso) {
                Some(self.all@[iso])
            } else {
                None
            },
    {
        if iso == 0 {
            return None;
        }
        match self.all.get(iso) {
            Some(w) => Some(*w),
            None => None,
        }
    }

    fn change(&mut self, iso: usize, w: Watch)
        ensures
            final(self).all@ == changed(old(self).all@, iso, w),
    {
        if iso != 0 && self.all.contains(iso) {
            self.all.insert(iso, w);
        }
    }

    /// Begins to watch an isolate.
    pub fn install(&mut self, iso: usize, group: usize, heap_limit: usize)
        ensures
            final(self).all@ == old(self).all@.insert(
                iso,
                Watch {
                    group,
                    terminate: false,
                    heap_limit,
                    initial_heap_limit: heap_limit,
                    heap_cb: 0,
                    heap_cb_data: 0,
                    in_heap_cb: false,
                },
            ),
    {
        self.all.insert(
            iso,
            Watch {
                group,
                terminate: false,
                heap_limit,
                initial_heap_limit: heap_limit,
                heap_cb: 0,
                heap_cb_data: 0,
                in_heap_cb: false,
            },
        );
    }

    /// Ends the watch of an isolate. The result is the group that the engine is to watch no more, if it was
    /// watched.
    pub fn uninstall(&mut self, iso: usize) -> (r: Option<usize>)
        ensures
            final(self).all@ == old(self).all@.remove(iso),
            r == if old(self).all@.dom().contains(iso) {
                Some(old(self).all@[iso].group)
            } else {
                None
            },
    {
        let group = match self.all.get(iso) {
            Some(w) => Some(w.group),
            None => None,
        };
        self.all.remove(iso);
        group
    }

    /// Lets the script of an isolate end.
    pub fn request_terminate(&mut self, iso: usize)
        ensures
            final(self).all@ == changed(
                old(self).all@,
                iso,
                Watch { terminate: true, ..old(self).all@[iso] },
            ),
    {
        if let Some(w) = self.lookup(iso) {
            self.change(iso, Watch { terminate: true, ..w });
        }
    }

    /// Lets the script of an isolate go on after all.
    pub fn cancel_terminate(&mut self, iso: usize)
        ensures
            final(self).all@ == changed(
                old(self).all@,
                iso,
                Watch { terminate: false, ..old(self).all@[iso] },
            ),
    {
        if let Some(w) = self.lookup(iso) {
            self.change(iso, Watch { terminate: false, ..w });
        }
    }

    /// Whether the script of an isolate is to end. This is what the engine is told when it asks.
    pub fn is_terminating(&self, iso: usize) -> (r: bool)
        ensures
            r == terminating(self.all@, iso),
    {
        match self.lookup(iso) {
            Some(w) => w.terminate,
            None => false,
        }
    }

    /// Lets a function be warned. Where no limit was configured the default is taken.
    pub fn set_heap_callback(&mut self, iso: usize, callback: usize, data: usize)
        ensures
            final(self).all@ == changed(
                old(self).all@,
                iso,
                with_callback(old(self).all@[iso], callback, data),
            ),
    {
        if let Some(w) = self.lookup(iso) {
            let mut v = w;
            v.heap_cb_data = data;
            v.heap_cb = callback;
            if w.heap_limit == 0 {
                v.heap_limit = DEFAULT_LIMIT;
                v.initial_heap_limit = DEFAULT_LIMIT;
            }
            self.change(iso, v);
        }
    }

    /// Lets no function be warned.
    pub fn clear_heap_callback(&mut self, iso: usize)
        ensures
            final(self).all@ == changed(
                old(self).all@,
                iso,
                Watch { heap_cb: 0, heap_cb_data: 0, ..old(self).all@[iso] },
            ),
    {
        if let Some(w) = self.lookup(iso) {
            self.change(iso, Watch { heap_cb: 0, heap_cb_data: 0, ..w });
        }
    }

    /// Looks at the heap of an isolate, in which `live` bytes are in use (0 where that is not known). The
    /// result is the warning that the embedder is to be given, if it is due.
    pub fn maybe_drive_heap_callback(&mut self, iso: usize, live: usize) -> (r: Option<HeapWarning>)
        ensures
            ({
                let w = old(self).all@[iso];
                let due = iso != 0 && old(self).all@.dom().contains(iso) && warns(w, live as int);
                &&& r == if due {
                    Some(
                        HeapWarning {
                            callback: w.heap_cb,
                            data: w.heap_cb_data,
                            limit: w.heap_limit,
                            initial: w.initial_heap_limit,
                        },
                    )
                } else {
                    None
                }
                &&& final(self).all@ == if due {
                    old(self).all@.insert(iso, warning(w))
                } else {
                    old(self).all@
                }
            }),
    {
        match self.lookup(iso) {
            None => None,
            Some(w) => {
                if w.heap_cb == 0 || w.in_heap_cb || w.heap_limit == 0 {
                    return None;
                }
                if !(live == 0 || live >= w.heap_limit) {
                    return None;
                }
                self.change(iso, Watch { in_heap_cb: true, ..w });
                Some(
                    HeapWarning {
                        callback: w.heap_cb,
                        data: w.heap_cb_data,
                        limit: w.heap_limit,
                        initial: w.initial_heap_limit,
                    },
                )
            },
        }
    }

    /// Takes the embedder's answer to a warning at the limit `limit` up.
    pub fn heap_callback_returned(&mut self, iso: usize, limit: usize, new_limit: usize)
        ensures
            final(self).all@ == changed(
                old(self).all@,
                iso,
                warned(old(self).all@[iso], limit, new_limit),
            ),
    {
        if let Some(w) = self.lookup(iso) {
            let mut v = w;
            if new_limit > limit {
                v.heap_limit = new_limit;
            }
            v.in_heap_cb = false;
            self.change(iso, v);
        }
    }
}

/// A script that was told to end is told so until that is taken back; no other isolate's script is.
pub proof fn law_termination_is_requested_and_cancelled(
    all: Map<usize, Watch>,
    iso: usize,
    other: usize,
)
    requires
        iso != 0,
        all.dom().contains(iso),
    ensures
        terminating(changed(all, iso, Watch { terminate: true, ..all[iso] }), iso),
        !terminating(changed(all, iso, Watch { terminate: false, ..all[iso] }), iso),
        other != iso ==> terminating(
            changed(all, iso, Watch { terminate: true, ..all[iso] }),
            other,
        ) == terminating(all, other),
{
}

/// While the embedder is being warned it is not warned again, and its answer does not lower the limit.
pub proof fn law_warning_is_not_nested(w: Watch, live: int, new_limit: usize)
    requires
        warns(w, live),
    ensures
        forall|l: int| !warns(warning(w), l),
        warned(warning(w), w.heap_limit, new_limit).heap_limit >= w.heap_limit,
        !warned(warning(w), w.heap_limit, new_limit).in_heap_cb,
{
}

/// The embedder is warned where the heap has come up to its limit or cannot be measured, unless there is no
/// limit or nobody to warn.
pub proof fn law_when_the_embedder_is_warned(w: Watch, live: int)
    requires
        live >= 0,
    ensures
        w.heap_cb == 0 || w.heap_limit == 0 || w.in_heap_cb ==> !warns(w, live),
        w.heap_cb != 0 && w.heap_limit != 0 && !w.in_heap_cb ==> {
            &&& live >= w.heap_limit ==> warns(w, live)
            &&& 0 < live < w.heap_limit ==> !warns(w, live)
            &&& warns(w, 0)
        },
{
}

/// A warning only marks that it is under way, and what follows it only raises the limit to the new one.
pub proof fn law_warnings_change_the_limit_alone(w: Watch, limit: usize, new_limit: usize)
    ensures
        warning(w) == (Watch { in_heap_cb: true, ..w }),
        warned(w, limit, new_limit) == (Watch {
            in_heap_cb: false,
            heap_limit: warned(w, limit, new_limit).heap_limit,
            ..w
        }),
        new_limit > limit ==> warned(w, limit, new_limit).heap_limit == new_limit,
        new_limit <= limit ==> warned(w, limit, new_limit).heap_limit == w.heap_limit,
{
}

/// Whoever wants to be warned gets a limit of 16 MiB where there was none; a limit that was set stays.
pub proof fn law_limits_with_a_callback(w: Watch, callback: usize, data: usize)
    ensures
        ({
            let r = with_callback(w, callback, data);
            &&& r.heap_cb == callback && r.heap_cb_data == data
            &&& r.group == w.group && r.terminate == w.terminate && r.in_heap_cb == w.in_heap_cb
            &&& w.heap_limit == 0 ==> r.heap_limit == 16 * 1024 * 1024 && r.initial_heap_limit == 16
                * 1024 * 1024
            &&& w.heap_limit != 0 ==> r.heap_limit == w.heap_limit && r.initial_heap_limit
                == w.initial_heap_limit
        }),
{
}

/// Only a known isolate is watched.
pub proof fn law_unknown_isolates_are_not_watched(all: Map<usize, Watch>, iso: usize, w: Watch)
    ensures
        iso == 0 || !all.dom().contains(iso) ==> changed(all, iso, w) == all && !terminating(all, iso),
        iso != 0 && all.dom().contains(iso) ==> changed(all, iso, w)[iso] == w && changed(all, iso, w).dom()
            == all.dom(),
{
    assert(iso != 0 && all.dom().contains(iso) ==> changed(all, iso, w).dom() =~= all.dom());
}

/// A script that is to end is told so until the request is taken back.
pub proof fn law_termination_is_told(a: Watches, b: Watches, c: Watches, iso: usize, asked: bool, taken_back: bool)
    requires
        iso != 0,
        a.all@.dom().contains(iso),
        exists|m: &mut Watches|
            *m == a && *final(m) == b && #[trigger] call_ensures(
                Watches::request_terminate,
                (m, iso),
                (),
            ),
        call_ensures(Watches::is_terminating, (&b, iso), asked),
        exists|m: &mut Watches|
            *m == b && *final(m) == c && #[trigger] call_ensures(
                Watches::cancel_terminate,
                (m, iso),
                (),
            ),
        call_ensures(Watches::is_terminating, (&c, iso), taken_back),
    ensures
        asked,
        !taken_back,
{
}

/// An isolate that is watched anew has its limit, and nothing to warn or to end; when it is watched no more,
/// its group comes back.
pub proof fn law_watching(a: Watches, b: Watches, c: Watches, iso: usize, group: usize, limit: usize, w: Option<Watch>, back: Option<usize>, ended: bool)
    requires
        iso != 0,
        exists|m: &mut Watches|
            *m == a && *final(m) == b && #[trigger] call_ensures(
                Watches::install,
                (m, iso, group, limit),
                (),
            ),
        call_ensures(Watches::lookup, (&b, iso), w),
        call_ensures(Watches::is_terminating, (&b, iso), ended),
        exists|m: &mut Watches|
            *m == b && *final(m) == c && #[trigger] call_ensures(Watches::uninstall, (m, iso), back),
    ensures
        w matches Some(x) && x.group == group && x.heap_limit == limit && x.initial_heap_limit == limit
            && x.heap_cb == 0 && !x.in_heap_cb,
        !ended,
        back == Some(group),
        !c.all@.dom().contains(iso),
{
}

/// The embedder is warned with what it asked for, and not again while the warning is under way.
pub proof fn law_embedder_is_warned(
    a: Watches,
    b: Watches,
    c: Watches,
    iso: usize,
    live: usize,
    first: Option<HeapWarning>,
    second: Option<HeapWarning>,
)
    requires
        iso != 0,
        a.all@.dom().contains(iso),
        a.all@[iso].heap_cb != 0 && a.all@[iso].heap_limit != 0 && !a.all@[iso].in_heap_cb,
        live >= a.all@[iso].heap_limit,
        exists|m: &mut Watches|
            *m == a && *final(m) == b && #[trigger] call_ensures(Watches::maybe_drive_heap_callback, (m, iso, live), first),
        exists|m: &mut Watches|
            *m == b && *final(m) == c && #[trigger] call_ensures(Watches::maybe_drive_heap_callback, (m, iso, live), second),
    ensures
        first matches Some(x) && x.callback == a.all@[iso].heap_cb && x.data == a.all@[iso].heap_cb_data
            && x.limit == a.all@[iso].heap_limit && x.initial == a.all@[iso].initial_heap_limit,
        second is None,
{
}

} // verus!
