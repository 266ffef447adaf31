//! What kind of value a value is.

use crate::text::{chars_of, is_text, push_str};
use vstd::prelude::*;

verus! {

/// The kinds that `typeof` tells apart, and null.
#[derive(Clone, Copy, PartialEq, Eq, Structural, Debug)]
pub enum Kind {
    Undefined,
    Null,
    Boolean,
    Number,
    Text,
    Symbol,
    BigInt,
    Object,
    /// Something that scripts do not see.
    Internal,
}

/// What `typeof` says of a value.
pub open spec fn typeof_text(kind: Kind, is_function: bool) -> Seq<char> {
    match kind {
        Kind::Undefined => "undefined"@,
        Kind::Null => "object"@,
        Kind::Boolean => "boolean"@,
        Kind::Number => "number"@,
        Kind::Text => "string"@,
        Kind::Symbol => "symbol"@,
        Kind::BigInt => "bigint"@,
        Kind::Object => if is_function {
            "function"@
        } else {
            "object"@
        },
        Kind::Internal => "object"@,
    }
}

/// What `typeof` says of a value.
pub fn type_of(kind: Kind, is_function: bool) -> (r: &'static str)
    ensures
        r@ == typeof_text(kind, is_function),
{
    match kind {
        Kind::Undefined => "undefined",
        Kind::Null => "object",
        Kind::Boolean => "boolean",
        Kind::Number => "number",
        Kind::Text => "string",
        Kind::Symbol => "symbol",
        Kind::BigInt => "bigint",
        Kind::Object => {
            if is_function {
                "function"
            } else {
                "object"
            }
        },
        Kind::Internal => "object",
    }
}

/// A name is a string or a symbol.
pub fn is_name(kind: Kind) -> (r: bool)
    ensures
        r == (kind == Kind::Text || kind == Kind::Symbol),
{
    kind == Kind::Text || kind == Kind::Symbol
}

/// Whether a value is null or undefined.
pub fn is_null_or_undefined(kind: Kind) -> (r: bool)
    ensures
        r == (kind == Kind::Null || kind == Kind::Undefined),
{
    kind == Kind::Null || kind == Kind::Undefined
}

/// Whether a value is the given boolean.
pub fn is_boolean_value(kind: Kind, truth: bool, wanted: bool) -> (r: bool)
    ensures
        r == (kind == Kind::Boolean && truth == wanted),
{
    kind == Kind::Boolean && truth == wanted
}

/// The classes of objects that are told apart by what `Object.prototype.toString` makes of them.
#[derive(Clone, Copy, PartialEq, Eq, Structural, Debug)]
pub enum Class {
    Date,
    Arguments,
    BigIntObject,
    BooleanObject,
    NumberObject,
    StringObject,
    SymbolObject,
    RegExp,
    AsyncFunction,
    GeneratorFunction,
    MapObject,
    SetObject,
    MapIterator,
    SetIterator,
    Generator,
    WeakMap,
    WeakSet,
    Module,
    ArrayBuffer,
    SharedArrayBuffer,
    DataView,
    WasmMemory,
    WasmModule,
}

/// The name of a class.
pub open spec fn class_name(class: Class) -> Seq<char> {
    match class {
        Class::Date => "Date"@,
        Class::Arguments => "Arguments"@,
        Class::BigIntObject => "BigInt"@,
        Class::BooleanObject => "Boolean"@,
        Class::NumberObject => "Number"@,
        Class::StringObject => "String"@,
        Class::SymbolObject => "Symbol"@,
        Class::RegExp => "RegExp"@,
        Class::AsyncFunction => "AsyncFunction"@,
        Class::GeneratorFunction => "GeneratorFunction"@,
        Class::MapObject => "Map"@,
        Class::SetObject => "Set"@,
        Class::MapIterator => "Map Iterator"@,
        Class::SetIterator => "Set Iterator"@,
        Class::Generator => "Generator"@,
        Class::WeakMap => "WeakMap"@,
        Class::WeakSet => "WeakSet"@,
        Class::Module => "Module"@,
        Class::ArrayBuffer => "ArrayBuffer"@,
        Class::SharedArrayBuffer => "SharedArrayBuffer"@,
        Class::DataView => "DataView"@,
        Class::WasmMemory => "WebAssembly.Memory"@,
        Class::WasmModule => "WebAssembly.Module"@,
    }
}

/// The name of a class.
pub fn name_of_class(class: Class) -> (r: &'static str)
    ensures
        r@ == class_name(class),
{
    match class {
        Class::Date => "Date",
        Class::Arguments => "Arguments",
        Class::BigIntObject => "BigInt",
        Class::BooleanObject => "Boolean",
        Class::NumberObject => "Number",
        Class::StringObject => "String",
        Class::SymbolObject => "Symbol",
        Class::RegExp => "RegExp",
        Class::AsyncFunction => "AsyncFunction",
        Class::GeneratorFunction => "GeneratorFunction",
        Class::MapObject => "Map",
        Class::SetObject => "Set",
        Class::MapIterator => "Map Iterator",
        Class::SetIterator => "Set Iterator",
        Class::Generator => "Generator",
        Class::WeakMap => "WeakMap",
        Class::WeakSet => "WeakSet",
        Class::Module => "Module",
        Class::ArrayBuffer => "ArrayBuffer",
        Class::SharedArrayBuffer => "SharedArrayBuffer",
        Class::DataView => "DataView",
        Class::WasmMemory => "WebAssembly.Memory",
        Class::WasmModule => "WebAssembly.Module",
    }
}

/// What `Object.prototype.toString` makes of an object of this class.
pub open spec fn object_text(tag: Seq<char>) -> Seq<char> {
    "[object "@ + tag + "]"@
}

/// Whether a value is an object of the class `tag`: `text` is what `Object.prototype.toString` made of it,
/// if it could be called.
pub fn class_tag_is(is_object: bool, text: Option<&str>, tag: &str) -> (r: bool)
    ensures
        r == (is_object && text is Some && text->0@ == object_text(tag@)),
{
    if !is_object {
        return false;
    }
    match text {
        None => false,
        Some(t) => {
            let mut want = chars_of("[object ");
            push_str(&mut want, tag);
            push_str(&mut want, "]");
            assert(want@ =~= object_text(tag@));
            is_text(&want, t)
        },
    }
}

/// No object is of two classes.
pub proof fn law_object_has_one_class(a: Seq<char>, b: Seq<char>)
    requires
        object_text(a) == object_text(b),
    ensures
        a == b,
{
    reveal_strlit("[object ");
    reveal_strlit("]");
    let x = object_text(a);
    let y = object_text(b);
    assert(a =~= x.subrange(8, x.len() - 1));
    assert(b =~= y.subrange(8, y.len() - 1));
}

/// Whether a value is an instance of a constructor: `answer` is the engine's, negative for an exception.
pub fn instance_of(is_object: bool, has_constructor: bool, answer: i32) -> (r: bool)
    ensures
        r == (is_object && has_constructor && answer == 1),
{
    is_object && has_constructor && answer == 1
}

/// The truth of a value by the engine's answer, negative for an exception.
pub fn truth_of(answer: i32) -> (r: bool)
    ensures
        r == (answer > 0),
{
    answer > 0
}

/// What `Object.prototype.toString` makes of the objects of each class.
pub proof fn law_classes_by_text()
    ensures
        object_text(class_name(Class::Date)) == "[object Date]"@,
        object_text(class_name(Class::Arguments)) == "[object Arguments]"@,
        object_text(class_name(Class::BigIntObject)) == "[object BigInt]"@,
        object_text(class_name(Class::BooleanObject)) == "[object Boolean]"@,
        object_text(class_name(Class::NumberObject)) == "[object Number]"@,
        object_text(class_name(Class::StringObject)) == "[object String]"@,
        object_text(class_name(Class::SymbolObject)) == "[object Symbol]"@,
        object_text(class_name(Class::RegExp)) == "[object RegExp]"@,
        object_text(class_name(Class::AsyncFunction)) == "[object AsyncFunction]"@,
        object_text(class_name(Class::GeneratorFunction)) == "[object GeneratorFunction]"@,
        object_text(class_name(Class::MapObject)) == "[object Map]"@,
        object_text(class_name(Class::SetObject)) == "[object Set]"@,
        object_text(class_name(Class::MapIterator)) == "[object Map Iterator]"@,
        object_text(class_name(Class::SetIterator)) == "[object Set Iterator]"@,
        object_text(class_name(Class::Generator)) == "[object Generator]"@,
        object_text(class_name(Class::WeakMap)) == "[object WeakMap]"@,
        object_text(class_name(Class::WeakSet)) == "[object WeakSet]"@,
        object_text(class_name(Class::Module)) == "[object Module]"@,
        object_text(class_name(Class::ArrayBuffer)) == "[object ArrayBuffer]"@,
        object_text(class_name(Class::SharedArrayBuffer)) == "[object SharedArrayBuffer]"@,
        object_text(class_name(Class::DataView)) == "[object DataView]"@,
        object_text(class_name(Class::WasmMemory)) == "[object WebAssembly.Memory]"@,
        object_text(class_name(Class::WasmModule)) == "[object WebAssembly.Module]"@,
{
    reveal_strlit("[object ");
    reveal_strlit("]");
    reveal_strlit("Date");
    reveal_strlit("[object Date]");
    assert(object_text(class_name(Class::Date)) =~= "[object Date]"@);
    reveal_strlit("Arguments");
    reveal_strlit("[object Arguments]");
    assert(object_text(class_name(Class::Arguments)) =~= "[object Arguments]"@);
    reveal_strlit("BigInt");
    reveal_strlit("[object BigInt]");
    assert(object_text(class_name(Class::BigIntObject)) =~= "[object BigInt]"@);
    reveal_strlit("Boolean");
    reveal_strlit("[object Boolean]");
    assert(object_text(class_name(Class::BooleanObject)) =~= "[object Boolean]"@);
    reveal_strlit("Number");
    reveal_strlit("[object Number]");
    assert(object_text(class_name(Class::NumberObject)) =~= "[object Number]"@);
    reveal_strlit("String");
    reveal_strlit("[object String]");
    assert(object_text(class_name(Class::StringObject)) =~= "[object String]"@);
    reveal_strlit("Symbol");
    reveal_strlit("[object Symbol]");
    assert(object_text(class_name(Class::SymbolObject)) =~= "[object Symbol]"@);
    reveal_strlit("RegExp");
    reveal_strlit("[object RegExp]");
    assert(object_text(class_name(Class::RegExp)) =~= "[object RegExp]"@);
    reveal_strlit("AsyncFunction");
    reveal_strlit("[object AsyncFunction]");
    assert(object_text(class_name(Class::AsyncFunction)) =~= "[object AsyncFunction]"@);
    reveal_strlit("GeneratorFunction");
    reveal_strlit("[object GeneratorFunction]");
    assert(object_text(class_name(Class::GeneratorFunction)) =~= "[object GeneratorFunction]"@);
    reveal_strlit("Map");
    reveal_strlit("[object Map]");
    assert(object_text(class_name(Class::MapObject)) =~= "[object Map]"@);
    reveal_strlit("Set");
    reveal_strlit("[object Set]");
    assert(object_text(class_name(Class::SetObject)) =~= "[object Set]"@);
    reveal_strlit("Map Iterator");
    reveal_strlit("[object Map Iterator]");
    assert(object_text(class_name(Class::MapIterator)) =~= "[object Map Iterator]"@);
    reveal_strlit("Set Iterator");
    reveal_strlit("[object Set Iterator]");
    assert(object_text(class_name(Class::SetIterator)) =~= "[object Set Iterator]"@);
    reveal_strlit("Generator");
    reveal_strlit("[object Generator]");
    assert(object_text(class_name(Class::Generator)) =~= "[object Generator]"@);
    reveal_strlit("WeakMap");
    reveal_strlit("[object WeakMap]");
    assert(object_text(class_name(Class::WeakMap)) =~= "[object WeakMap]"@);
    reveal_strlit("WeakSet");
    reveal_strlit("[object WeakSet]");
    assert(object_text(class_name(Class::WeakSet)) =~= "[object WeakSet]"@);
    reveal_strlit("Module");
    reveal_strlit("[object Module]");
    assert(object_text(class_name(Class::Module)) =~= "[object Module]"@);
    reveal_strlit("ArrayBuffer");
    reveal_strlit("[object ArrayBuffer]");
    assert(object_text(class_name(Class::ArrayBuffer)) =~= "[object ArrayBuffer]"@);
    reveal_strlit("SharedArrayBuffer");
    reveal_strlit("[object SharedArrayBuffer]");
    assert(object_text(class_name(Class::SharedArrayBuffer)) =~= "[object SharedArrayBuffer]"@);
    reveal_strlit("DataView");
    reveal_strlit("[object DataView]");
    assert(object_text(class_name(Class::DataView)) =~= "[object DataView]"@);
    reveal_strlit("WebAssembly.Memory");
    reveal_strlit("[object WebAssembly.Memory]");
    assert(object_text(class_name(Class::WasmMemory)) =~= "[object WebAssembly.Memory]"@);
    reveal_strlit("WebAssembly.Module");
    reveal_strlit("[object WebAssembly.Module]");
    assert(object_text(class_name(Class::WasmModule)) =~= "[object WebAssembly.Module]"@);
}

/// What `typeof` says of each kind: null and what scripts do not see are objects, and whether an object is a
/// function counts for objects alone.
pub proof fn law_typeof_by_kind(is_function: bool)
    ensures
        typeof_text(Kind::Undefined, is_function) == "undefined"@,
        typeof_text(Kind::Null, is_function) == "object"@,
        typeof_text(Kind::Boolean, is_function) == "boolean"@,
        typeof_text(Kind::Number, is_function) == "number"@,
        typeof_text(Kind::Text, is_function) == "string"@,
        typeof_text(Kind::Symbol, is_function) == "symbol"@,
        typeof_text(Kind::BigInt, is_function) == "bigint"@,
        typeof_text(Kind::Object, true) == "function"@,
        typeof_text(Kind::Object, false) == "object"@,
        typeof_text(Kind::Internal, is_function) == "object"@,
{
}

/// Only null and undefined are nothing, and a boolean is either true or false.
pub proof fn law_nothing_and_booleans(kind: Kind, truth: bool, nothing: bool, yes: bool, no: bool)
    requires
        call_ensures(is_null_or_undefined, (kind,), nothing),
        call_ensures(is_boolean_value, (kind, truth, true), yes),
        call_ensures(is_boolean_value, (kind, truth, false), no),
    ensures
        nothing <==> kind == Kind::Null || kind == Kind::Undefined,
        kind == Kind::Boolean ==> yes == truth && no != truth,
        kind != Kind::Boolean ==> !yes && !no,
{
}

/// The engine answers 1 where an object is an instance, and more than 0 where a value is true.
pub proof fn law_engine_answers(n: i32, instance: bool, no_object: bool, truth: bool)
    requires
        call_ensures(instance_of, (true, true, n), instance),
        call_ensures(instance_of, (false, true, n), no_object),
        call_ensures(truth_of, (n,), truth),
    ensures
        instance <==> n == 1,
        !no_object,
        truth <==> n > 0,
{
}

} // verus!
