//! Calls of the embedder's functions from scripts.

use crate::qjs::isolate::NULL;
use vstd::prelude::*;

verus! {

/// An embedder's function with the value that it is given.
#[derive(Clone, Copy, PartialEq, Eq, Structural, Debug)]
pub struct DispatchEntry {
    pub callback: usize,
    pub data: usize,
}

/// The embedder's functions, each with a number by which the engine knows it.
pub struct Dispatch {
    pub entries: Vec<DispatchEntry>,
}

/// The entry with this number.
pub open spec fn entry(entries: Seq<DispatchEntry>, number: int) -> Option<DispatchEntry> {
    if 0 <= number < entries.len() {
        Some(entries[number])
    } else {
        None
    }
}

impl Dispatch {
    /// No function is known.
    pub fn new() -> (r: Dispatch)
        ensures
            r.entries@.len() == 0,
    {
        Dispatch { entries: Vec::new() }
    }

    /// Takes up a function. The result is its number.
    pub fn register_dispatch(&mut self, callback: usize, data: usize) -> (r: i32)
        requires
            old(self).entries@.len() <= i32::MAX,
        ensures
            r == old(self).entries@.len(),
            final(self).entries@ == old(self).entries@.push(DispatchEntry { callback, data }),
    {
        let number = self.entries.len() as i32;
        self.entries.push(DispatchEntry { callback, data });
        number
    }

    /// The function with this number.
    pub fn lookup_dispatch(&self, number: i32) -> (r: Option<DispatchEntry>)
        ensures
            r == entry(self.entries@, number as int),
    {
        if number < 0 || number as usize >= self.entries.len() {
            None
        } else {
            Some(self.entries[number as usize])
        }
    }
}

/// A function keeps its number, whatever is taken up later.
pub proof fn law_registered_function_is_found(
    entries: Seq<DispatchEntry>,
    e: DispatchEntry,
    more: Seq<DispatchEntry>,
)
    ensures
        entry(entries.push(e) + more, entries.len() as int) == Some(e),
{
}

/// The number of arguments of a call.
pub open spec fn argument_count(argc: int) -> int {
    if argc < 0 {
        0
    } else {
        argc
    }
}

/// The number of arguments of a call.
pub fn count_arguments(argc: i32) -> (r: usize)
    ensures
        r == argument_count(argc as int),
{
    if argc < 0 {
        0
    } else {
        argc as usize
    }
}

/// How a function is made for the engine: its `length`, and whether it can be called with `new`.
#[derive(Clone, Copy, PartialEq, Eq, Structural, Debug)]
pub struct FunctionShape {
    pub length: i32,
    /// The number of the kind of function that the engine makes.
    pub prototype: i32,
}

/// The kind of function that is called with a number.
pub const GENERIC_MAGIC: i32 = 1;

/// The kind of function that is called with `new` and a number.
pub const CONSTRUCTOR_MAGIC: i32 = 3;

/// How a function is made.
pub fn function_shape(length: i32, construct: bool) -> (r: FunctionShape)
    ensures
        r.length == argument_count(length as int),
        r.prototype == if construct {
            CONSTRUCTOR_MAGIC
        } else {
            GENERIC_MAGIC
        },
{
    FunctionShape {
        length: if length < 0 {
            0
        } else {
            length
        },
        prototype: if construct {
            CONSTRUCTOR_MAGIC
        } else {
            GENERIC_MAGIC
        },
    }
}

/// What the embedder's function is told of a call.
pub struct CallbackInfo {
    pub isolate: usize,
    pub this: usize,
    pub data: usize,
    pub new_target: usize,
    pub is_construct: bool,
    pub args: Vec<usize>,
    /// What the function returns; nothing as long as it has not said.
    pub return_slot: usize,
}

impl CallbackInfo {
    /// What is told of a call with these arguments.
    pub fn new(
        isolate: usize,
        this: usize,
        entry: DispatchEntry,
        new_target: usize,
        is_construct: bool,
        args: Vec<usize>,
    ) -> (r: CallbackInfo)
        ensures
            r == (CallbackInfo {
                isolate,
                this,
                data: entry.data,
                new_target,
                is_construct,
                args,
                return_slot: NULL,
            }),
    {
        CallbackInfo {
            isolate,
            this,
            data: entry.data,
            new_target,
            is_construct,
            args,
            return_slot: NULL,
        }
    }

    /// An argument; nothing where there is none.
    pub fn get(&self, index: i32) -> (r: usize)
        ensures
            r == if 0 <= index < self.args@.len() {
                self.args@[index as int]
            } else {
                NULL
            },
    {
        if index < 0 || index as usize >= self.args.len() {
            NULL
        } else {
            self.args[index as usize]
        }
    }

    /// The number of arguments.
    pub fn length(&self) -> (r: i32)
        requires
            self.args@.len() <= i32::MAX,
        ensures
            r == self.args@.len(),
    {
        self.args.len() as i32
    }

    /// Sets what the function returns.
    pub fn set_return_value(&mut self, value: usize)
        ensures
            *final(self) == (CallbackInfo { return_slot: value, ..*old(self) }),
    {
        self.return_slot = value;
    }
}

/// What a call came to.
#[derive(Clone, Copy, PartialEq, Eq, Structural, Debug)]
pub enum CallResult {
    Exception,
    Undefined,
    Value(usize),
}

impl CallbackInfo {
    /// What the call came to: an exception that is pending goes before what was returned.
    pub fn result(&self, has_exception: bool) -> (r: CallResult)
        ensures
            r == if has_exception {
                CallResult::Exception
            } else if self.return_slot == NULL {
                CallResult::Undefined
            } else {
                CallResult::Value(self.return_slot)
            },
    {
        if has_exception {
            CallResult::Exception
        } else if self.return_slot == NULL {
            CallResult::Undefined
        } else {
            CallResult::Value(self.return_slot)
        }
    }
}

/// What a call with `new` came to: an exception, the object that the function returned, or the new object
/// where it returned none.
pub fn construct_result(r: CallResult, is_object: bool, this: usize) -> (out: CallResult)
    ensures
        out == match r {
            CallResult::Exception => CallResult::Exception,
            CallResult::Value(v) => if is_object {
                CallResult::Value(v)
            } else {
                CallResult::Value(this)
            },
            CallResult::Undefined => CallResult::Value(this),
        },
{
    match r {
        CallResult::Exception => CallResult::Exception,
        CallResult::Value(v) => {
            if is_object {
                CallResult::Value(v)
            } else {
                CallResult::Value(this)
            }
        },
        CallResult::Undefined => CallResult::Value(this),
    }
}

/// A number as the engine holds it: as a small integer, where it fits one.
#[derive(Clone, Copy, PartialEq, Eq, Structural, Debug)]
pub enum Number {
    Int(i32),
    /// The double with this value.
    Double(u32),
}

/// A number as the engine holds it.
pub fn number_of(value: u32) -> (r: Number)
    ensures
        match r {
            Number::Int(n) => n == value,
            Number::Double(n) => n == value && value > i32::MAX,
        },
{
    if value <= 0x7fff_ffff {
        Number::Int(value as i32)
    } else {
        Number::Double(value)
    }
}

/// The class of the objects that carry the embedder's pointers; it is made once.
pub struct ExternalClass {
    pub id: u32,
}

impl ExternalClass {
    /// The class, which is `fresh` if there was none.
    pub fn class_id(&mut self, fresh: u32) -> (r: u32)
        ensures
            r == if old(self).id != 0 {
                old(self).id
            } else {
                fresh
            },
            final(self).id == r,
    {
        if self.id == 0 {
            self.id = fresh;
        }
        self.id
    }

    /// Whether a value carries a pointer of the embedder's: it is an object of the class with one.
    pub fn value_is_external(&self, is_object: bool, opaque: usize) -> (r: bool)
        ensures
            r == (is_object && self.id != 0 && opaque != NULL),
    {
        is_object && self.id != 0 && opaque != NULL
    }
}

/// Only numbers that were given out stand for functions.
pub proof fn law_numbers_of_functions(entries: Seq<DispatchEntry>, n: int)
    ensures
        n < 0 || n >= entries.len() ==> entry(entries, n) is None,
        0 <= n < entries.len() ==> entry(entries, n) == Some(entries[n]),
{
}

/// A negative number of arguments is none.
pub proof fn law_argument_counts(n: i32, count: usize, plain: FunctionShape, new: FunctionShape)
    requires
        call_ensures(count_arguments, (n,), count),
        call_ensures(function_shape, (n, false), plain),
        call_ensures(function_shape, (n, true), new),
    ensures
        n >= 0 ==> count == n && plain.length == n && new.length == n,
        n < 0 ==> count == 0 && plain.length == 0 && new.length == 0,
        plain.prototype == 1,
        new.prototype == 3,
{
}

/// An argument that was not passed is nothing; an exception goes before what was returned, and what was not
/// returned is undefined.
pub proof fn law_calls(
    info: CallbackInfo,
    i: i32,
    arg: usize,
    thrown: CallResult,
    plain: CallResult,
)
    requires
        call_ensures(CallbackInfo::get, (&info, i), arg),
        call_ensures(CallbackInfo::result, (&info, true), thrown),
        call_ensures(CallbackInfo::result, (&info, false), plain),
    ensures
        0 <= i < info.args@.len() ==> arg == info.args@[i as int],
        i < 0 || i >= info.args@.len() ==> arg == 0,
        thrown == CallResult::Exception,
        info.return_slot == 0 ==> plain == CallResult::Undefined,
        info.return_slot != 0 ==> plain == CallResult::Value(info.return_slot),
{
}

/// A call with `new` gives the object that was returned, and else the one that was made; an exception stays.
pub proof fn law_constructions(v: usize, this: usize, object: CallResult, other: CallResult, none: CallResult, thrown: CallResult)
    requires
        call_ensures(construct_result, (CallResult::Value(v), true, this), object),
        call_ensures(construct_result, (CallResult::Value(v), false, this), other),
        call_ensures(construct_result, (CallResult::Undefined, false, this), none),
        call_ensures(construct_result, (CallResult::Exception, false, this), thrown),
    ensures
        object == CallResult::Value(v),
        other == CallResult::Value(this),
        none == CallResult::Value(this),
        thrown == CallResult::Exception,
{
}

/// A number that a signed one of 32 bits can hold is held by one.
pub proof fn law_numbers(n: u32, r: Number)
    requires
        call_ensures(number_of, (n,), r),
    ensures
        n <= i32::MAX ==> (r matches Number::Int(k) && k == n),
        n > i32::MAX ==> (r matches Number::Double(k) && k == n),
{
}

/// A value is the embedder's where it is an object of the class, once that is made, and carries a pointer.
pub proof fn law_external_values(class: ExternalClass, object: bool, p: usize, r: bool)
    requires
        call_ensures(ExternalClass::value_is_external, (&class, object, p), r),
    ensures
        class.id == 0 || !object || p == 0 ==> !r,
        class.id != 0 && object && p != 0 ==> r,
{
}

/// A function that was taken up is found under its number.
pub proof fn law_number_finds_the_function(a: Dispatch, b: Dispatch, callback: usize, data: usize, number: i32, found: Option<DispatchEntry>)
    requires
        a.entries@.len() <= i32::MAX,
        exists|m: &mut Dispatch|
            *m == a && *final(m) == b && #[trigger] call_ensures(Dispatch::register_dispatch, (m, callback, data), number),
        call_ensures(Dispatch::lookup_dispatch, (&b, number), found),
    ensures
        found == Some(DispatchEntry { callback, data }),
{
    law_registered_function_is_found(a.entries@, DispatchEntry { callback, data }, seq![]);
    assert(a.entries@.push(DispatchEntry { callback, data }) + seq![] =~= b.entries@);
}

/// A value that was set is what the call comes to, unless an exception is pending.
pub proof fn law_set_value_is_returned(a: CallbackInfo, b: CallbackInfo, v: usize, r: CallResult)
    requires
        v != 0,
        exists|m: &mut CallbackInfo|
            *m == a && *final(m) == b && #[trigger] call_ensures(
                CallbackInfo::set_return_value,
                (m, v),
                (),
            ),
        call_ensures(CallbackInfo::result, (&b, false), r),
    ensures
        r == CallResult::Value(v),
        b.args == a.args && b.this == a.this && b.data == a.data && b.new_target == a.new_target,
{
}

/// The class is made once: a later call does not take another number.
pub proof fn law_class_is_made_once(a: ExternalClass, b: ExternalClass, c: ExternalClass, x: u32, y: u32, first: u32, second: u32)
    requires
        a.id == 0,
        x != 0,
        exists|m: &mut ExternalClass|
            *m == a && *final(m) == b && #[trigger] call_ensures(ExternalClass::class_id, (m, x), first),
        exists|m: &mut ExternalClass|
            *m == b && *final(m) == c && #[trigger] call_ensures(ExternalClass::class_id, (m, y), second),
    ensures
        first == x,
        second == x,
        c.id == x,
{
}

} // verus!
