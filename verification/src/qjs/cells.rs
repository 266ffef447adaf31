//! References that outlive scopes: each is a cell of its own with one reference to a value.

use crate::handle_map::HandleMap;
use crate::qjs::isolate::NULL;
use vstd::prelude::*;

verus! {

/// The cells and the values that they hold.
pub struct Cells {
    pub all: HandleMap<usize>,
}

/// A new global reference can have a cell: there is a value, which is no template, and a context.
pub open spec fn gets_cell(data: usize, is_template: bool, ctx: usize) -> bool {
    data != NULL && !is_template && ctx != NULL
}

impl Cells {
    /// There is no cell.
    pub fn new() -> (r: Cells)
        ensures
            r.all@ == Map::<usize, usize>::empty(),
    {
        Cells { all: HandleMap::new() }
    }

    /// Makes a global reference to `value`, which the handle `data` stands for. A template is its own
    /// reference; any other value gets the cell `fresh`. The result is the reference; none without a value
    /// or a context.
    pub fn global_new(
        &mut self,
        data: usize,
        value: usize,
        is_template: bool,
        ctx: usize,
        fresh: usize,
    ) -> (r: usize)
        ensures
            r == if data == NULL {
                NULL
            } else if is_template {
                data
            } else if ctx == NULL {
                NULL
            } else {
                fresh
            },
            final(self).all@ == if gets_cell(data, is_template, ctx) {
                old(self).all@.insert(fresh, value)
            } else {
                old(self).all@
            },
    {
        if data == NULL {
            return NULL;
        }
        if is_template {
            return data;
        }
        if ctx == NULL {
            return NULL;
        }
        self.all.insert(fresh, value);
        fresh
    }

    /// Gives a global reference up. The result is the value whose reference is to be freed, if it had a
    /// cell.
    pub fn global_reset(&mut self, data: usize, is_template: bool) -> (r: Option<usize>)
        requires
            data == NULL || is_template || old(self).all@.dom().contains(data),
        ensures
            data == NULL || is_template ==> r is None && final(self).all@ == old(self).all@,
            data != NULL && !is_template ==> r == Some(old(self).all@[data]) && final(self).all@
                == old(self).all@.remove(data),
    {
        if data == NULL || is_template {
            return None;
        }
        let value = match self.all.get(data) {
            Some(v) => Some(*v),
            None => None,
        };
        self.all.remove(data);
        value
    }

    /// Empties a traced reference. The result is the value whose reference is to be freed, if there was
    /// one.
    pub fn traced_destruct(&mut self, slot: &mut usize) -> (r: Option<usize>)
        requires
            *old(slot) == NULL || old(self).all@.dom().contains(*old(slot)),
        ensures
            *final(slot) == NULL,
            *old(slot) == NULL ==> r is None && final(self).all@ == old(self).all@,
            *old(slot) != NULL ==> r == Some(old(self).all@[*old(slot)]) && final(self).all@ == old(
                self,
            ).all@.remove(*old(slot)),
    {
        let r = self.global_reset(*slot, false);
        *slot = NULL;
        r
    }

    /// Lets a traced reference hold `value`, which the handle `data` stands for, in the cell `fresh`; without
    /// a value or a context, or with a template, it is empty. The result is the value that it held before,
    /// whose reference is to be freed.
    pub fn traced_reset(
        &mut self,
        slot: &mut usize,
        data: usize,
        value: usize,
        is_template: bool,
        ctx: usize,
        fresh: usize,
    ) -> (r: Option<usize>)
        requires
            *old(slot) == NULL || old(self).all@.dom().contains(*old(slot)),
        ensures
            r == if *old(slot) == NULL {
                None
            } else {
                Some(old(self).all@[*old(slot)])
            },
            *final(slot) == if gets_cell(data, is_template, ctx) {
                fresh
            } else {
                NULL
            },
            ({
                let emptied = if *old(slot) == NULL {
                    old(self).all@
                } else {
                    old(self).all@.remove(*old(slot))
                };
                final(self).all@ == if gets_cell(data, is_template, ctx) {
                    emptied.insert(fresh, value)
                } else {
                    emptied
                }
            }),
    {
        let before = self.traced_destruct(slot);
        if data != NULL && !is_template && ctx != NULL {
            self.all.insert(fresh, value);
            *slot = fresh;
        }
        before
    }

    /// Sets an eternal reference, whose cell is never given up.
    pub fn eternal_set(&mut self, slot: &mut usize, data: usize, value: usize, ctx: usize, fresh: usize)
        ensures
            *final(slot) == if ctx == NULL || data == NULL {
                NULL
            } else {
                fresh
            },
            final(self).all@ == if ctx == NULL || data == NULL {
                old(self).all@
            } else {
                old(self).all@.insert(fresh, value)
            },
    {
        if ctx == NULL || data == NULL {
            *slot = NULL;
            return;
        }
        self.all.insert(fresh, value);
        *slot = fresh;
    }
}

/// Giving a global reference up gives its value back and leaves the other cells as they were.
pub proof fn law_reset_undoes_new(all: Map<usize, usize>, fresh: usize, value: usize)
    requires
        !all.dom().contains(fresh),
    ensures
        all.insert(fresh, value).remove(fresh) == all,
        all.insert(fresh, value)[fresh] == value,
{
    assert(all.insert(fresh, value).remove(fresh) =~= all);
}

/// Only a value that is no template gets a cell, and only in a context.
pub proof fn law_who_gets_a_cell(data: usize, ctx: usize)
    ensures
        data != 0 && ctx != 0 ==> gets_cell(data, false, ctx) && !gets_cell(data, true, ctx),
        !gets_cell(0, false, ctx),
        !gets_cell(data, false, 0),
{
}

/// A value that was put into a cell comes back when the reference is given up, and the cells are as before.
pub proof fn law_value_comes_back(
    a: Cells,
    b: Cells,
    c: Cells,
    data: usize,
    value: usize,
    ctx: usize,
    fresh: usize,
    r: usize,
    back: Option<usize>,
)
    requires
        data != 0 && ctx != 0 && fresh != 0,
        !a.all@.dom().contains(fresh),
        exists|m: &mut Cells|
            *m == a && *final(m) == b && #[trigger] call_ensures(Cells::global_new, (m, data, value, false, ctx, fresh), r),
        exists|m: &mut Cells|
            *m == b && *final(m) == c && #[trigger] call_ensures(Cells::global_reset, (m, r, false), back),
    ensures
        r == fresh,
        b.all@[r] == value,
        back == Some(value),
        c.all@ == a.all@,
{
    assert(c.all@ =~= a.all@);
}

/// A template is its own reference: it gets no cell and leaves none.
pub proof fn law_templates_have_no_cell(a: Cells, b: Cells, data: usize, value: usize, ctx: usize, fresh: usize, r: usize)
    requires
        exists|m: &mut Cells|
            *m == a && *final(m) == b && #[trigger] call_ensures(Cells::global_new, (m, data, value, true, ctx, fresh), r),
    ensures
        r == data,
        b.all@ == a.all@,
{
}

} // verus!
