//! Values by the types that the engine gives them.

use crate::value::Kind;
use vstd::prelude::*;

verus! {

/// The kind of a value; without a context to ask in, undefined.
pub fn jsty(has_context: bool, kind: Kind) -> (r: Kind)
    ensures
        r == if has_context {
            kind
        } else {
            Kind::Undefined
        },
{
    if has_context {
        kind
    } else {
        Kind::Undefined
    }
}

/// Whether a value is an object; without a context to ask in it is none.
pub fn is_obj(has_context: bool, kind: Kind) -> (r: bool)
    ensures
        r == (has_context && kind == Kind::Object),
{
    has_context && kind == Kind::Object
}

/// The kinds of buffers and of views over them.
#[derive(Clone, Copy, PartialEq, Eq, Structural, Debug)]
pub enum TypedArrayType {
    Int8Array,
    Int16Array,
    Int32Array,
    Uint8Array,
    Uint8ClampedArray,
    Uint16Array,
    Uint32Array,
    Float32Array,
    Float64Array,
    BigInt64Array,
    BigUint64Array,
    ArrayBuffer,
    Neither,
}

/// The kind of buffer or view that a value is: `found` is the engine's answer.
pub fn typed_array_type(is_object: bool, found: TypedArrayType) -> (r: TypedArrayType)
    ensures
        r == if is_object {
            found
        } else {
            TypedArrayType::Neither
        },
{
    if is_object {
        found
    } else {
        TypedArrayType::Neither
    }
}

/// Whether a value is a typed array.
pub fn is_typed_array(found: TypedArrayType) -> (r: bool)
    ensures
        r == (found != TypedArrayType::Neither && found != TypedArrayType::ArrayBuffer),
{
    found != TypedArrayType::Neither && found != TypedArrayType::ArrayBuffer
}

/// Whether a value is a view over an array buffer: a typed array or a `DataView`.
pub fn is_array_buffer_view(found: TypedArrayType, is_data_view: bool) -> (r: bool)
    ensures
        r == (is_data_view || (found != TypedArrayType::Neither && found
            != TypedArrayType::ArrayBuffer)),
{
    is_typed_array(found) || is_data_view
}

/// Whether a value is an object that holds a BigInt, rather than a BigInt.
pub fn is_big_int_object(tag_is_big_int: bool, is_object: bool, kind: Kind) -> (r: bool)
    ensures
        r == (tag_is_big_int && is_object && kind != Kind::BigInt),
{
    tag_is_big_int && is_object && kind != Kind::BigInt
}

/// Two numbers, as far as telling them apart goes.
#[derive(Clone, Copy, PartialEq, Eq, Structural, Debug)]
pub struct NumberPair {
    /// Both values are numbers.
    pub numbers: bool,
    /// Both are zero.
    pub zeros: bool,
    /// Their signs are the same.
    pub same_sign: bool,
    /// Both are NaN.
    pub nans: bool,
}

/// Whether two values are the same: as strict equality says, but for zeros of different sign, which
/// differ, and for NaN, which is the same as itself.
pub fn same_value(has_context: bool, strictly_equal: bool, pair: NumberPair) -> (r: bool)
    ensures
        r == (has_context && if strictly_equal {
            !(pair.numbers && pair.zeros) || pair.same_sign
        } else {
            pair.numbers && pair.nans
        }),
{
    if !has_context {
        return false;
    }
    if strictly_equal {
        if pair.numbers && pair.zeros {
            return pair.same_sign;
        }
        return true;
    }
    pair.numbers && pair.nans
}

/// Without a context to ask in, nothing is known of a value.
pub proof fn law_no_context_no_answer(
    kind: Kind,
    asked: Kind,
    object: bool,
    equal: bool,
    pair: NumberPair,
    same: bool,
)
    requires
        call_ensures(jsty, (false, kind), asked),
        call_ensures(is_obj, (false, kind), object),
        call_ensures(same_value, (false, equal, pair), same),
    ensures
        asked == Kind::Undefined,
        !object,
        !same,
{
}

/// With a context, the engine's answer counts.
pub proof fn law_kind_is_the_engines_answer(kind: Kind, asked: Kind, object: bool)
    requires
        call_ensures(jsty, (true, kind), asked),
        call_ensures(is_obj, (true, kind), object),
    ensures
        asked == kind,
        object == (asked == Kind::Object),
{
}

/// A view over a buffer is a typed array or a `DataView`; a buffer is none of them, nor is what is no object.
pub proof fn law_views(
    is_object: bool,
    found: TypedArrayType,
    asked: TypedArrayType,
    typed: bool,
    data_view: bool,
    view: bool,
)
    requires
        call_ensures(typed_array_type, (is_object, found), asked),
        call_ensures(is_typed_array, (asked,), typed),
        call_ensures(is_array_buffer_view, (asked, data_view), view),
    ensures
        view == (typed || data_view),
        typed ==> is_object && asked == found,
        found == TypedArrayType::ArrayBuffer || found == TypedArrayType::Neither ==> !typed,
        is_object && found == TypedArrayType::Uint8Array ==> typed,
        is_object && found != TypedArrayType::ArrayBuffer && found != TypedArrayType::Neither
            ==> typed,
{
}

/// Zeros of different sign are not the same, NaN is the same as itself, and everything else is the same where
/// it is strictly equal.
pub proof fn law_same_value(pair: NumberPair, equal: bool, same: bool)
    requires
        call_ensures(same_value, (true, equal, pair), same),
    ensures
        pair.numbers && pair.zeros && equal ==> same == pair.same_sign,
        pair.numbers && pair.nans && !equal ==> same,
        equal && !pair.zeros ==> same,
        !pair.numbers ==> same == equal,
        !pair.zeros && !pair.nans ==> same == equal,
{
}

/// A BigInt is no object that holds one.
pub proof fn law_big_int_objects(tag: bool, is_object: bool, kind: Kind, r: bool)
    requires
        call_ensures(is_big_int_object, (tag, is_object, kind), r),
    ensures
        kind == Kind::BigInt ==> !r,
        r ==> is_object && tag,
        tag && is_object && kind == Kind::Object ==> r,
{
}

} // verus!
