//! Values by the tags that the engine gives them.

use crate::qjs::backing_store::{kind_number, typed_array_number, TypedArray};
use crate::value::Kind;
use vstd::prelude::*;

verus! {

/// The tags of values.
#[derive(Clone, Copy, PartialEq, Eq, Structural, Debug)]
pub enum Tag {
    Undefined,
    Uninitialized,
    Null,
    Bool,
    Int,
    Float64,
    Text,
    Rope,
    Symbol,
    BigInt,
    ShortBigInt,
    Object,
    Exception,
    Module,
}

/// The kind of a value with this tag.
pub open spec fn kind_of_tag(tag: Tag) -> Kind {
    match tag {
        Tag::Undefined => Kind::Undefined,
        Tag::Uninitialized => Kind::Undefined,
        Tag::Null => Kind::Null,
        Tag::Bool => Kind::Boolean,
        Tag::Int => Kind::Number,
        Tag::Float64 => Kind::Number,
        Tag::Text => Kind::Text,
        Tag::Rope => Kind::Text,
        Tag::Symbol => Kind::Symbol,
        Tag::BigInt => Kind::BigInt,
        Tag::ShortBigInt => Kind::BigInt,
        Tag::Object => Kind::Object,
        Tag::Exception => Kind::Internal,
        Tag::Module => Kind::Internal,
    }
}

/// The kind of a value with this tag.
pub fn kind_of(tag: Tag) -> (r: Kind)
    ensures
        r == kind_of_tag(tag),
{
    match tag {
        Tag::Undefined => Kind::Undefined,
        Tag::Uninitialized => Kind::Undefined,
        Tag::Null => Kind::Null,
        Tag::Bool => Kind::Boolean,
        Tag::Int => Kind::Number,
        Tag::Float64 => Kind::Number,
        Tag::Text => Kind::Text,
        Tag::Rope => Kind::Text,
        Tag::Symbol => Kind::Symbol,
        Tag::BigInt => Kind::BigInt,
        Tag::ShortBigInt => Kind::BigInt,
        Tag::Object => Kind::Object,
        Tag::Exception => Kind::Internal,
        Tag::Module => Kind::Internal,
    }
}

/// Whether there is a value and it is an object.
pub fn is_obj(tag: Option<Tag>) -> (r: bool)
    ensures
        r == (tag == Some(Tag::Object)),
{
    match tag {
        Some(t) => t == Tag::Object,
        None => false,
    }
}

/// The number of the kind of typed arrays that a value is, or -1: `number` is the engine's answer.
pub fn typed_array_type(is_object: bool, number: i32) -> (r: i32)
    ensures
        r == if is_object {
            number as int
        } else {
            -1
        },
{
    if is_object {
        number
    } else {
        -1
    }
}

/// Whether a value is a typed array.
pub fn is_typed_array(number: i32) -> (r: bool)
    ensures
        r == (number >= 0),
{
    number >= 0
}

/// Whether a value is a typed array of this kind.
pub fn is_typed_array_of(number: i32, kind: TypedArray) -> (r: bool)
    ensures
        r == (number == kind_number(kind)),
{
    number == typed_array_number(kind)
}

/// Whether a value is a view over an array buffer: a typed array or a `DataView`.
pub fn is_array_buffer_view(number: i32, is_data_view: bool) -> (r: bool)
    ensures
        r == (number >= 0 || is_data_view),
{
    is_typed_array(number) || is_data_view
}

/// Tags that differ only in how the engine holds a value have one kind.
pub proof fn law_kinds_of_tags()
    ensures
        kind_of_tag(Tag::Undefined) == Kind::Undefined,
        kind_of_tag(Tag::Uninitialized) == Kind::Undefined,
        kind_of_tag(Tag::Null) == Kind::Null,
        kind_of_tag(Tag::Bool) == Kind::Boolean,
        kind_of_tag(Tag::Int) == Kind::Number,
        kind_of_tag(Tag::Float64) == Kind::Number,
        kind_of_tag(Tag::Text) == Kind::Text,
        kind_of_tag(Tag::Rope) == Kind::Text,
        kind_of_tag(Tag::Symbol) == Kind::Symbol,
        kind_of_tag(Tag::BigInt) == Kind::BigInt,
        kind_of_tag(Tag::ShortBigInt) == Kind::BigInt,
        kind_of_tag(Tag::Object) == Kind::Object,
        kind_of_tag(Tag::Exception) == Kind::Internal,
        kind_of_tag(Tag::Module) == Kind::Internal,
{
}

/// A value that is no object is no typed array and no view, whatever the engine answers.
pub proof fn law_only_objects_are_typed_arrays(number: i32, asked: i32, typed: bool, view: bool)
    requires
        call_ensures(typed_array_type, (false, number), asked),
        call_ensures(is_typed_array, (asked,), typed),
        call_ensures(is_array_buffer_view, (asked, false), view),
    ensures
        !typed,
        !view,
{
}

/// A typed array of some kind is a typed array, and every typed array and `DataView` is a view.
pub proof fn law_typed_arrays_are_views(
    number: i32,
    kind: TypedArray,
    of_kind: bool,
    typed: bool,
    data_view: bool,
    view: bool,
)
    requires
        call_ensures(is_typed_array_of, (number, kind), of_kind),
        call_ensures(is_typed_array, (number,), typed),
        call_ensures(is_array_buffer_view, (number, data_view), view),
    ensures
        of_kind ==> typed,
        view == (typed || data_view),
        typed == (number >= 0),
{
}

} // verus!
