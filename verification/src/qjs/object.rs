//! Properties of objects and their names.

use crate::object::{hash_of_address, property_reply, reply};
use crate::status::MaybeBool;
use crate::text::{chars_of, contains, contains_text};
use vstd::prelude::*;

verus! {

/// What a script may do with a property.
#[derive(Clone, Copy, PartialEq, Eq, Structural, Debug)]
pub struct PropertyFlags {
    pub writable: bool,
    pub enumerable: bool,
    pub configurable: bool,
}

/// What a script may do with a property with these attributes, which say what it may not.
pub fn attr_to_jsprop(attributes: u32) -> (r: PropertyFlags)
    ensures
        r.writable == (attributes & 1 == 0),
        r.enumerable == (attributes & 2 == 0),
        r.configurable == (attributes & 4 == 0),
{
    PropertyFlags {
        writable: attributes & 1 == 0,
        enumerable: attributes & 2 == 0,
        configurable: attributes & 4 == 0,
    }
}

/// What the engine answers to a question: a negative number for an exception, zero for no.
pub open spec fn engine_reply(askable: bool, answer: int) -> MaybeBool {
    reply(askable, answer < 0, answer != 0)
}

/// The reply to a question that could be asked, by the engine's answer.
pub fn reply_of(askable: bool, answer: i32) -> (r: MaybeBool)
    ensures
        r == engine_reply(askable, answer as int),
{
    property_reply(askable, answer < 0, answer != 0)
}

/// An exception says that a property could not be written, not that a setter failed.
pub open spec fn is_write_rejection(message: Seq<char>) -> bool {
    contains_text(message, "read-only"@) || contains_text(message, "not extensible"@)
        || contains_text(message, "non-extensible"@)
}

/// What becomes of a write that failed.
#[derive(Clone, Copy, PartialEq, Eq, Structural, Debug)]
pub enum FailedWrite {
    /// The exception is dropped; the property was not written.
    Rejected,
    /// The exception is thrown again.
    Rethrown,
}

/// What becomes of a write that failed: without an exception, or with one that says that the property
/// could not be written, it is not written; any other exception goes on. `message` is the text of the
/// exception, if there is one and it has a text.
pub fn failed_write(has_exception: bool, message: Option<&str>) -> (r: FailedWrite)
    ensures
        r == if !has_exception {
            FailedWrite::Rejected
        } else {
            match message {
                Some(m) => if is_write_rejection(m@) {
                    FailedWrite::Rejected
                } else {
                    FailedWrite::Rethrown
                },
                None => FailedWrite::Rethrown,
            }
        },
{
    if !has_exception {
        return FailedWrite::Rejected;
    }
    match message {
        Some(m) => {
            let c = chars_of(m);
            if contains(&c, "read-only") || contains(&c, "not extensible") || contains(
                &c,
                "non-extensible",
            ) {
                FailedWrite::Rejected
            } else {
                FailedWrite::Rethrown
            }
        },
        None => FailedWrite::Rethrown,
    }
}

/// The reply to a write: `answer` is the engine's, `failed` what became of a write that failed.
pub fn write_reply(askable: bool, answer: i32, failed: FailedWrite) -> (r: MaybeBool)
    ensures
        r == if askable && answer < 0 && failed == FailedWrite::Rejected {
            MaybeBool::JustFalse
        } else {
            engine_reply(askable, answer as int)
        },
{
    if askable && answer < 0 && failed == FailedWrite::Rejected {
        MaybeBool::JustFalse
    } else {
        reply_of(askable, answer)
    }
}

/// Whether a name is among an object's own.
pub fn has_own_property(names: &Vec<u32>, want: u32) -> (r: bool)
    ensures
        r == names@.contains(want),
{
    let mut i: usize = 0;
    while i < names.len()
        invariant
            i <= names.len(),
            forall|j: int| 0 <= j < i ==> names@[j] != want,
        decreases names.len() - i,
    {
        if names[i] == want {
            return true;
        }
        i += 1;
    }
    false
}

/// The names that are strings.
pub const GPN_STRING_MASK: i32 = 1;

/// The names that are symbols.
pub const GPN_SYMBOL_MASK: i32 = 2;

/// The enumerable ones alone.
pub const GPN_ENUM_ONLY: i32 = 16;

/// Which names are listed: strings and symbols, each unless the filter leaves them out (strings all the
/// same where it leaves both out), and enumerable ones alone where the filter asks for them.
pub open spec fn names_wanted(filter: u32) -> (bool, bool, bool) {
    (
        filter & 8 == 0 || filter & 16 != 0,
        filter & 16 == 0,
        filter & 2 != 0,
    )
}

/// The number that stands for a choice of names.
pub open spec fn gpn(wanted: (bool, bool, bool)) -> int {
    (if wanted.0 {
        1int
    } else {
        0
    }) + (if wanted.1 {
        2int
    } else {
        0
    }) + (if wanted.2 {
        16int
    } else {
        0
    })
}

/// The number that stands for the names that a filter lets through.
pub fn gpn_from_filter(filter: u32) -> (r: i32)
    ensures
        r == gpn(names_wanted(filter)),
        (r & GPN_ENUM_ONLY != 0) == (filter & 2 != 0),
        (r & GPN_SYMBOL_MASK != 0) == (filter & 16 == 0),
        (r & GPN_STRING_MASK != 0) == (filter & 8 == 0 || filter & 16 != 0),
{
    let mut r: i32 = 0;
    if filter & 8 == 0 {
        r = r + GPN_STRING_MASK;
    }
    if filter & 16 == 0 {
        r = r + GPN_SYMBOL_MASK;
    }
    if r == 0 {
        r = GPN_STRING_MASK;
    }
    if filter & 2 != 0 {
        r = r + GPN_ENUM_ONLY;
    }
    assert(1i32 & 1 == 1 && 1i32 & 2 == 0 && 1i32 & 16 == 0 && 2i32 & 1 == 0 && 2i32 & 2 == 2 && 2i32
        & 16 == 0 && 3i32 & 1 == 1 && 3i32 & 2 == 2 && 3i32 & 16 == 0 && 17i32 & 1 == 1 && 17i32 & 2
        == 0 && 17i32 & 16 == 16 && 18i32 & 1 == 0 && 18i32 & 2 == 2 && 18i32 & 16 == 16 && 19i32 & 1
        == 1 && 19i32 & 2 == 2 && 19i32 & 16 == 16) by (bit_vector);
    r
}

/// The bit of an atom that stands for an index.
pub const ATOM_TAG_INT: u32 = 0x8000_0000;

/// The atoms that are listed: all, or those that stand for no index.
pub open spec fn listed(atoms: Seq<u32>, skip_indices: bool) -> Seq<u32>
    decreases atoms.len(),
{
    if atoms.len() == 0 {
        seq![]
    } else if skip_indices && atoms.last() & ATOM_TAG_INT != 0 {
        listed(atoms.drop_last(), skip_indices)
    } else {
        listed(atoms.drop_last(), skip_indices).push(atoms.last())
    }
}

/// The atoms that are listed.
pub fn property_names(atoms: &Vec<u32>, skip_indices: bool) -> (r: Vec<u32>)
    ensures
        r@ == listed(atoms@, skip_indices),
{
    let mut r: Vec<u32> = Vec::new();
    let mut i: usize = 0;
    while i < atoms.len()
        invariant
            i <= atoms.len(),
            r@ == listed(atoms@.take(i as int), skip_indices),
        decreases atoms.len() - i,
    {
        assert(atoms@.take(i + 1).drop_last() =~= atoms@.take(i as int));
        assert(atoms@.take(i + 1).last() == atoms@[i as int]);
        if !(skip_indices && atoms[i] & ATOM_TAG_INT != 0) {
            r.push(atoms[i]);
        }
        i += 1;
    }
    assert(atoms@.take(i as int) =~= atoms@);
    r
}

/// A hash of a name by its atom: odd and not negative.
pub open spec fn hash_of_atom(atom: u32) -> u32 {
    (((((atom ^ 0x9e37_79b9) * 2654435761) % 0x1_0000_0000) as u32) & 0x7fff_ffff) | 1
}

/// A hash of the object at this address: not zero.
pub fn get_identity_hash(p: u64) -> (r: i32)
    ensures
        r == if hash_of_address(p) == 0 {
            1u32
        } else {
            hash_of_address(p)
        },
        r >= 1,
{
    let h = crate::object::get_identity_hash(p);
    if h == 0 {
        1
    } else {
        h
    }
}

/// A hash of a name by its atom; 1 where it has none.
pub fn name_identity_hash(atom: u32) -> (r: i32)
    ensures
        r == if atom == 0 {
            1u32
        } else {
            hash_of_atom(atom)
        },
        r >= 1,
{
    if atom == 0 {
        return 1;
    }
    let x: u32 = atom ^ 0x9e37_79b9;
    let p: u64 = x as u64 * 2654435761;
    let h: u32 = (p % 0x1_0000_0000) as u32;
    assert(1u32 <= (h & 0x7fff_ffff) | 1 <= 0x7fff_ffff) by (bit_vector);
    ((h & 0x7fff_ffff) | 1) as i32
}

/// What the engine read of a property.
#[derive(Clone, Copy, PartialEq, Eq, Structural, Debug)]
pub enum Read {
    Exception,
    Undefined,
    Value(usize),
}

/// A property that is no interceptor's: undefined counts as missing.
pub fn real_named_property(read: Read) -> (r: Option<usize>)
    ensures
        r == match read {
            Read::Value(v) => Some(v),
            _ => None,
        },
{
    match read {
        Read::Value(v) => Some(v),
        _ => None,
    }
}

/// The name of an object's constructor: the one that was read, if it is a string, or `Object`.
pub fn constructor_name(read: Option<String>) -> (r: String)
    ensures
        r@ == match read {
            Some(name) => name@,
            None => "Object"@,
        },
{
    match read {
        Some(name) => name,
        None => "Object".to_owned(),
    }
}

/// The attributes of a property: none, if there is one; which they are the engine does not tell.
pub fn property_attributes(askable: bool, answer: i32) -> (r: Option<u32>)
    ensures
        r == if askable && answer > 0 {
            Some(0u32)
        } else {
            None
        },
{
    if askable && answer > 0 {
        Some(0)
    } else {
        None
    }
}

/// The length of an array by the number that the engine read, if it could read one.
pub fn array_length(read: Option<i64>) -> (r: u32)
    ensures
        r == match read {
            Some(n) => if n < 0 {
                0
            } else {
                n as u32
            },
            None => 0,
        },
{
    match read {
        Some(n) => {
            if n < 0 {
                0
            } else {
                n as u32
            }
        },
        None => 0,
    }
}

/// Whether the entries of a collection are keys and values: it has a `set`.
pub fn preview_is_key_value(has_object: bool, has_set: bool) -> (r: bool)
    ensures
        r == (has_object && has_set),
{
    has_object && has_set
}

/// The entries of an object: the array that was `made` of them, or the `empty` one where that failed.
/// Without an object there are none.
pub fn preview_reply(has_object: bool, made: Option<usize>, empty: usize) -> (r: Option<usize>)
    ensures
        r == if !has_object {
            None
        } else {
            Some(
                match made {
                    Some(a) => a,
                    None => empty,
                },
            )
        },
{
    if !has_object {
        return None;
    }
    match made {
        Some(a) => Some(a),
        None => Some(empty),
    }
}

} // verus!
