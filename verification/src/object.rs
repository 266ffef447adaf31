//! Objects: what both engines' answers mean, and which of the embedder's objects scripts hold.

use crate::status::{certain, just_bool, MaybeBool};
use crate::table::{
    inserted, law_insert_then_look_up, lemma_position, lemma_position_is, position, value_of,
};
use vstd::prelude::*;

verus! {

/// The answer to a question about a property: nothing without an object, or where an exception came in
/// between.
pub open spec fn reply(has_object: bool, threw: bool, answer: bool) -> MaybeBool {
    if !has_object || threw {
        MaybeBool::Nothing
    } else {
        certain(answer)
    }
}

/// The answer to a question about a property.
pub fn property_reply(has_object: bool, threw: bool, answer: bool) -> (r: MaybeBool)
    ensures
        r == reply(has_object, threw, answer),
{
    if !has_object || threw {
        MaybeBool::Nothing
    } else {
        just_bool(answer)
    }
}

/// A hash of an object by its address: not negative.
pub open spec fn hash_of_address(p: u64) -> u32 {
    ((p as u32) ^ ((p >> 32) as u32)) & 0x7fff_ffff
}

/// A hash of the object at this address.
pub fn get_identity_hash(p: u64) -> (r: i32)
    ensures
        r == hash_of_address(p),
        r >= 0,
{
    let h: u32 = (p as u32) ^ ((p >> 32) as u32);
    assert(h & 0x7fff_ffff <= 0x7fff_ffff) by (bit_vector);
    (h & 0x7fff_ffff) as i32
}

/// How far an object is protected.
#[derive(Clone, Copy, PartialEq, Eq, Structural, Debug)]
pub enum IntegrityLevel {
    Frozen,
    Sealed,
}

/// The function of `Object` that protects an object so far.
pub fn integrity_function(level: IntegrityLevel) -> (r: &'static str)
    ensures
        r@ == match level {
            IntegrityLevel::Frozen => "freeze"@,
            IntegrityLevel::Sealed => "seal"@,
        },
{
    match level {
        IntegrityLevel::Frozen => "freeze",
        IntegrityLevel::Sealed => "seal",
    }
}

/// The number of elements of a new array: none where it is negative.
pub fn array_size(length: i32) -> (r: usize)
    ensures
        r == if length < 0 {
            0
        } else {
            length as int
        },
{
    if length < 0 {
        0
    } else {
        length as usize
    }
}

/// Which of the embedder's objects stand behind which objects of scripts, by tag.
pub struct Wrappers {
    entries: Vec<((usize, u16), usize)>,
}

impl View for Wrappers {
    type V = Seq<((usize, u16), usize)>;

    closed spec fn view(&self) -> Seq<((usize, u16), usize)> {
        self.entries@
    }
}

/// Some object of the embedder's stands behind this one.
pub open spec fn is_wrapper(s: Seq<((usize, u16), usize)>, wrapper: usize) -> bool {
    exists|i: int| 0 <= i < s.len() && (#[trigger] s[i]).0.0 == wrapper
}

impl Wrappers {
    /// No object stands behind another.
    pub fn new() -> (r: Wrappers)
        ensures
            r@.len() == 0,
    {
        Wrappers { entries: Vec::new() }
    }

    fn find(&self, wrapper: usize, tag: u16) -> (r: Option<usize>)
        ensures
            match r {
                Some(i) => position(self@, (wrapper, tag)) == Some(i as int) && i
                    < self.entries@.len(),
                None => position(self@, (wrapper, tag)) is None,
            },
    {
        let mut i: usize = 0;
        while i < self.entries.len()
            invariant
                i <= self.entries.len(),
                forall|j: int| 0 <= j < i ==> (#[trigger] self@[j]).0 != (wrapper, tag),
            decreases self.entries.len() - i,
        {
            if self.entries[i].0.0 == wrapper && self.entries[i].0.1 == tag {
                proof {
                    lemma_position_is(self@, (wrapper, tag), i as int);
                }
                return Some(i);
            }
            i += 1;
        }
        proof {
            lemma_position(self@, (wrapper, tag));
        }
        None
    }

    /// Lets `value` stand behind an object.
    pub fn wrap(&mut self, wrapper: usize, value: usize, tag: u16)
        ensures
            final(self)@ == if wrapper == 0 {
                old(self)@
            } else {
                inserted(old(self)@, (wrapper, tag), value)
            },
    {
        if wrapper == 0 {
            return;
        }
        match self.find(wrapper, tag) {
            Some(i) => {
                self.entries[i] = ((wrapper, tag), value);
            },
            None => {
                self.entries.push(((wrapper, tag), value));
            },
        }
    }

    /// What stands behind an object under a tag; nothing where nothing does.
    pub open spec fn behind(&self, wrapper: usize, tag: u16) -> usize {
        match value_of(self@, (wrapper, tag)) {
            Some(v) => if wrapper == 0 {
                0
            } else {
                v
            },
            None => 0,
        }
    }

    /// What stands behind an object under a tag.
    pub fn unwrap(&self, wrapper: usize, tag: u16) -> (r: usize)
        ensures
            r == self.behind(wrapper, tag),
    {
        if wrapper == 0 {
            return 0;
        }
        match self.find(wrapper, tag) {
            Some(i) => self.entries[i].1,
            None => 0,
        }
    }

    /// Whether something stands behind an object under any tag.
    pub fn is_api_wrapper(&self, this: usize) -> (r: bool)
        ensures
            r == (this != 0 && is_wrapper(self@, this)),
    {
        if this == 0 {
            return false;
        }
        let mut i: usize = 0;
        while i < self.entries.len()
            invariant
                i <= self.entries.len(),
                this != 0,
                forall|j: int| 0 <= j < i ==> (#[trigger] self@[j]).0.0 != this,
            decreases self.entries.len() - i,
        {
            if self.entries[i].0.0 == this {
                assert(self@[i as int].0.0 == this);
                return true;
            }
            i += 1;
        }
        false
    }
}

/// What was put behind an object under a tag is found there; what stands behind it under another tag, or
/// behind another object, stays.
pub proof fn law_unwrap_after_wrap(
    s: Seq<((usize, u16), usize)>,
    wrapper: usize,
    tag: u16,
    value: usize,
    other: (usize, u16),
)
    ensures
        value_of(inserted(s, (wrapper, tag), value), (wrapper, tag)) == Some(value),
        is_wrapper(inserted(s, (wrapper, tag), value), wrapper),
        other != (wrapper, tag) ==> value_of(inserted(s, (wrapper, tag), value), other) == value_of(
            s,
            other,
        ),
{
    law_insert_then_look_up(s, (wrapper, tag), value, other);
    let t = inserted(s, (wrapper, tag), value);
    lemma_position(t, (wrapper, tag));
    assert(t[position(t, (wrapper, tag))->0].0.0 == wrapper);
}

/// The functions that protect objects, and the sizes of new arrays.
pub proof fn law_protection_and_sizes(frozen: &'static str, sealed: &'static str, n: i32, size: usize)
    requires
        call_ensures(integrity_function, (IntegrityLevel::Frozen,), frozen),
        call_ensures(integrity_function, (IntegrityLevel::Sealed,), sealed),
        call_ensures(array_size, (n,), size),
    ensures
        frozen@ == "freeze"@,
        sealed@ == "seal"@,
        n >= 0 ==> size == n,
        n < 0 ==> size == 0,
{
}

/// Nothing stands behind no object.
pub proof fn law_nothing_behind_nothing(w: Wrappers, tag: u16, this: usize, r: bool)
    requires
        call_ensures(Wrappers::is_api_wrapper, (&w, this), r),
    ensures
        w.behind(0, tag) == 0,
        this != 0 && value_of(w@, (this, tag)) is Some ==> r && w.behind(this, tag) == value_of(
            w@,
            (this, tag),
        )->0,
        this == 0 ==> !r,
{
    lemma_position(w@, (this, tag));
    if let Some(i) = position(w@, (this, tag)) {
        assert(w@[i].0.0 == this);
    }
}

/// What was put behind an object is found behind it, and nothing is put behind no object.
pub proof fn law_wrapped_object_is_found(a: Wrappers, b: Wrappers, wrapper: usize, value: usize, tag: u16, r: usize)
    requires
        exists|m: &mut Wrappers|
            *m == a && *final(m) == b && #[trigger] call_ensures(
                Wrappers::wrap,
                (m, wrapper, value, tag),
                (),
            ),
        call_ensures(Wrappers::unwrap, (&b, wrapper, tag), r),
    ensures
        wrapper != 0 ==> r == value,
        wrapper == 0 ==> r == 0 && b@ == a@,
{
    law_unwrap_after_wrap(a@, wrapper, tag, value, (wrapper, tag));
}

} // verus!
