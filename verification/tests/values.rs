//! Strings, values and objects on both sides.

use v8x::bytes::{number_at, push_little_endian};
use v8x::handle_map::HandleMap;
use v8x::jsc::object::{
    collected, define_attributes, entries_called, flattened, jsstr_is_array_index, preview_begin,
    property_names as jsc_property_names, values_called, Preview, PRIVATE_ATTRIBUTES, SKIP_STRINGS,
};
use v8x::jsc::string::{
    is_one_byte, length, new_from_utf8, pack, utf8_complete_prefix, utf8_length, value_view,
    write_utf8 as jsc_write_utf8, ValueView,
};
use v8x::jsc::value::{
    is_array_buffer_view as jsc_is_array_buffer_view, is_big_int_object, is_obj as jsc_is_obj,
    is_typed_array as jsc_is_typed_array, jsty, same_value,
    typed_array_type as jsc_typed_array_type, NumberPair, TypedArrayType,
};
use v8x::object::{
    array_size, get_identity_hash, integrity_function, property_reply, IntegrityLevel, Wrappers,
};
use v8x::qjs::backing_store::{typed_array_kind, typed_array_number, TypedArray};
use v8x::qjs::object::{
    array_length, attr_to_jsprop, constructor_name, failed_write,
    get_identity_hash as qjs_get_identity_hash, gpn_from_filter, has_own_property,
    name_identity_hash, preview_is_key_value, preview_reply, property_attributes,
    property_names as qjs_property_names, real_named_property, reply_of, write_reply, FailedWrite,
    Read, ATOM_TAG_INT, GPN_ENUM_ONLY, GPN_STRING_MASK, GPN_SYMBOL_MASK,
};
use v8x::qjs::string::{
    handle_to_utf16, new_external_one_byte_static, new_from_two_byte, utf8_copy_length,
    write_utf8 as qjs_write_utf8,
};
use v8x::qjs::value::{
    is_array_buffer_view, is_obj, is_typed_array, is_typed_array_of, kind_of, typed_array_type, Tag,
};
use v8x::status::MaybeBool;
use v8x::string::{
    contains_only_one_byte, encode_utf16, from_utf16_lossy, narrow, passed_length, primitive_index,
    units_of_utf8, widen, write_one_byte, write_units,
};
use v8x::utf8::{offset_of, str_slice, width_of};
use v8x::value::{
    class_tag_is, instance_of, is_boolean_value, is_name, is_null_or_undefined, name_of_class,
    truth_of, type_of, Class, Kind,
};

#[test]
fn utf16_is_encoded_and_decoded() {
    for s in ["", "abc", "é", "\u{ffff}", "a\u{10000}b", "\u{10ffff}", "😀"] {
        let units = encode_utf16(s);
        assert_eq!(units, s.encode_utf16().collect::<Vec<u16>>());
        assert_eq!(from_utf16_lossy(&units), s);
    }
}

#[test]
fn lone_surrogates_are_replaced() {
    assert_eq!(from_utf16_lossy(&[0xd800]), "\u{fffd}");
    assert_eq!(from_utf16_lossy(&[0xdc00, 0x61]), "\u{fffd}a");
    assert_eq!(from_utf16_lossy(&[0xd83d, 0x61]), "\u{fffd}a");
    assert_eq!(from_utf16_lossy(&[0xd83d, 0xd83d, 0xde00]), "\u{fffd}😀");
}

#[test]
fn one_byte_strings_are_widened_and_narrowed() {
    let u = encode_utf16("aé");
    assert!(contains_only_one_byte(&u));
    assert_eq!(narrow(&u), vec![0x61, 0xe9]);
    assert_eq!(widen(&narrow(&u)), u);
    assert!(!contains_only_one_byte(&encode_utf16("ā")));
    assert_eq!(narrow(&[0x0101]), vec![0x01]);
}

#[test]
fn units_are_written_within_bounds() {
    let u = encode_utf16("hello");
    let mut b = vec![9u16; 5];
    assert_eq!(write_units(&u, 1, 3, &mut b, true), 3);
    assert_eq!(b, vec![0x65, 0x6c, 0x6c, 9, 9]);
    let mut b = vec![9u16; 5];
    assert_eq!(write_units(&u, 3, 5, &mut b, true), 2);
    assert_eq!(b, vec![0x6c, 0x6f, 0, 9, 9]);
    let mut b = vec![9u16; 5];
    assert_eq!(write_units(&u, 3, 5, &mut b, false), 2);
    assert_eq!(b, vec![0x6c, 0x6f, 9, 9, 9]);
    let mut b = vec![9u16; 2];
    assert_eq!(write_units(&u, 7, 2, &mut b, true), 0);
    assert_eq!(b, vec![0, 9]);
    let mut b = vec![9u8; 3];
    assert_eq!(write_one_byte(&[0x141, 0x42], 0, 3, &mut b, true), 2);
    assert_eq!(b, vec![0x41, 0x42, 0]);
}

#[test]
fn lengths_and_indices_are_checked() {
    assert_eq!(primitive_index(-1), None);
    assert_eq!(primitive_index(0), Some(0));
    assert_eq!(primitive_index(i32::MAX), Some(2147483647));
    assert_eq!(passed_length(true, 3), Some(3));
    assert_eq!(passed_length(false, 3), None);
    assert_eq!(passed_length(true, -1), None);
}

#[test]
fn slices_of_text_fall_between_characters() {
    let s = "aé😀b";
    let c: Vec<char> = s.chars().collect();
    assert_eq!((width_of('a'), width_of('é'), width_of('€'), width_of('😀')), (1, 2, 3, 4));
    assert_eq!(offset_of(s, &c, 3), 7);
    assert_eq!(str_slice(s, 1, 7), "é😀");
    assert_eq!(str_slice(s, 8, 8), "");
}

#[test]
fn utf8_prefixes_are_whole_characters() {
    let s = "aé😀b".as_bytes();
    assert_eq!(utf8_complete_prefix(s, 8), (8, 5));
    assert_eq!(utf8_complete_prefix(s, 7), (7, 4));
    assert_eq!(utf8_complete_prefix(s, 6), (3, 2));
    assert_eq!(utf8_complete_prefix(s, 2), (1, 1));
    assert_eq!(utf8_complete_prefix(s, 0), (0, 0));
    let mut b = vec![9u8; 8];
    assert_eq!(jsc_write_utf8(s, 5, 6, &mut b), (3, 2));
    assert_eq!(b, vec![0x61, 0xc3, 0xa9, 0, 9, 9, 9, 9]);
    let mut b = vec![9u8; 8];
    assert_eq!(jsc_write_utf8(s, 5, 8, &mut b), (8, 5));
    assert_eq!(&b[..], s);
    assert_eq!(utf8_length(0), 0);
    assert_eq!(utf8_length(9), 8);
    assert_eq!(utf8_copy_length(s, 6), 3);
    assert_eq!(utf8_copy_length(s, 7), 7);
    assert_eq!(utf8_copy_length(s, 99), 8);
    let mut b = vec![9u8; 6];
    assert_eq!(qjs_write_utf8(s, 6, &mut b, true), (3, 2));
    assert_eq!(b, vec![0x61, 0xc3, 0xa9, 0, 9, 9]);
    let mut b = vec![9u8; 6];
    assert_eq!(qjs_write_utf8(b"ab", 6, &mut b, false), (2, 2));
    assert_eq!(b, vec![0x61, 0x62, 9, 9, 9, 9]);
}

#[test]
fn new_strings_hold_what_was_passed() {
    let s = "aé😀b";
    let units = vec![0x61, 0xe9, 0xd83d, 0xde00, 0x62];
    assert_eq!(units_of_utf8(s.as_bytes()), units);
    assert_eq!(units_of_utf8(b"a\xffb"), vec![0x61, 0xfffd, 0x62]);
    assert_eq!(new_from_utf8(Some(s.as_bytes()), 8), Some(units.clone()));
    assert_eq!(new_from_utf8(Some(s.as_bytes()), 3), Some(vec![0x61, 0xe9]));
    assert_eq!(new_from_utf8(Some(s.as_bytes()), 2), Some(vec![0x61, 0xfffd]));
    assert_eq!(new_from_utf8(Some(s.as_bytes()), -1), None);
    assert_eq!(new_from_utf8(None, 0), None);
    assert_eq!(handle_to_utf16(Some(s.as_bytes())), units);
    assert_eq!(handle_to_utf16(None), Vec::<u16>::new());
    assert_eq!(new_from_two_byte(Some(&units), 5), s);
    assert_eq!(new_from_two_byte(Some(&units), 3), "aé\u{fffd}");
    assert_eq!(new_from_two_byte(Some(&units), -1), "");
    assert_eq!(new_from_two_byte(None, 0), "");
    let bytes = [0x61u8, 0xe9, 0xff];
    assert_eq!(new_external_one_byte_static(Some(&bytes), 3).as_deref(), Some("aéÿ"));
    assert_eq!(new_external_one_byte_static(Some(&bytes), 0).as_deref(), Some(""));
    assert_eq!(new_external_one_byte_static(Some(&bytes), -1), None);
    assert_eq!(new_external_one_byte_static(None, 3), None);
}

#[test]
fn packed_lengths_are_read_back() {
    for n in [0u64, 1, 77, 0x7fff_ffff_ffff_ffff] {
        for one in [false, true] {
            let w = pack(n, one);
            assert_eq!((length(w), is_one_byte(w)), (n, one));
        }
    }
}

#[test]
fn views_of_strings_know_their_width() {
    assert!(matches!(value_view(false, 0, None), ValueView::Empty));
    assert!(matches!(value_view(true, 2, Some(&[0x61, 0xe9])), ValueView::OneByte(b) if b == vec![0x61, 0xe9]));
    assert!(matches!(value_view(true, 2, Some(&[0x61, 0x101])), ValueView::TwoByte));
    assert!(matches!(value_view(true, 2, None), ValueView::OneByte(b) if b == vec![0, 0]));
}

#[test]
fn kinds_are_named() {
    assert_eq!(type_of(Kind::Undefined, false), "undefined");
    assert_eq!(type_of(Kind::Null, false), "object");
    assert_eq!(type_of(Kind::Boolean, false), "boolean");
    assert_eq!(type_of(Kind::Number, false), "number");
    assert_eq!(type_of(Kind::Text, false), "string");
    assert_eq!(type_of(Kind::Symbol, false), "symbol");
    assert_eq!(type_of(Kind::BigInt, false), "bigint");
    assert_eq!(type_of(Kind::Object, false), "object");
    assert_eq!(type_of(Kind::Object, true), "function");
    assert!(is_name(Kind::Text) && is_name(Kind::Symbol) && !is_name(Kind::Number));
    assert!(is_null_or_undefined(Kind::Null) && is_null_or_undefined(Kind::Undefined));
    assert!(!is_null_or_undefined(Kind::Object));
    assert!(is_boolean_value(Kind::Boolean, true, true) && !is_boolean_value(Kind::Boolean, true, false));
    assert!(!is_boolean_value(Kind::Number, true, true));
}

#[test]
fn classes_are_told_by_their_text() {
    assert_eq!(name_of_class(Class::MapIterator), "Map Iterator");
    assert_eq!(name_of_class(Class::RegExp), "RegExp");
    assert!(class_tag_is(true, Some("[object Date]"), name_of_class(Class::Date)));
    assert!(!class_tag_is(true, Some("[object Dates]"), "Date"));
    assert!(!class_tag_is(true, Some("Date"), "Date"));
    assert!(!class_tag_is(false, Some("[object Date]"), "Date"));
    assert!(!class_tag_is(true, None, "Date"));
    assert!(instance_of(true, true, 1) && !instance_of(true, true, 0) && !instance_of(true, true, -1));
    assert!(!instance_of(false, true, 1) && !instance_of(true, false, 1));
    assert!(truth_of(1) && !truth_of(0) && !truth_of(-1));
}

#[test]
fn jsc_values_are_told_apart() {
    assert_eq!(jsty(true, Kind::Object), Kind::Object);
    assert_eq!(jsty(false, Kind::Object), Kind::Undefined);
    assert!(jsc_is_obj(true, Kind::Object) && !jsc_is_obj(true, Kind::Null) && !jsc_is_obj(false, Kind::Object));
    assert_eq!(jsc_typed_array_type(true, TypedArrayType::Int8Array), TypedArrayType::Int8Array);
    assert_eq!(jsc_typed_array_type(false, TypedArrayType::Int8Array), TypedArrayType::Neither);
    assert!(jsc_is_typed_array(TypedArrayType::Float64Array) && !jsc_is_typed_array(TypedArrayType::ArrayBuffer));
    assert!(jsc_is_array_buffer_view(TypedArrayType::Neither, true));
    assert!(!jsc_is_array_buffer_view(TypedArrayType::ArrayBuffer, false));
    assert!(is_big_int_object(true, true, Kind::Object) && !is_big_int_object(true, true, Kind::BigInt));
}

#[test]
fn same_value_tells_zeros_apart() {
    let pair = |numbers, zeros, same_sign, nans| NumberPair { numbers, zeros, same_sign, nans };
    assert!(same_value(true, true, pair(false, false, false, false)));
    assert!(same_value(true, true, pair(true, false, true, false)));
    assert!(same_value(true, true, pair(true, true, true, false)));
    assert!(!same_value(true, true, pair(true, true, false, false)));
    assert!(same_value(true, false, pair(true, false, false, true)));
    assert!(!same_value(true, false, pair(true, false, false, false)));
    assert!(!same_value(false, true, pair(true, false, true, false)));
}

#[test]
fn quickjs_tags_have_kinds() {
    assert_eq!(kind_of(Tag::Undefined), Kind::Undefined);
    assert_eq!(kind_of(Tag::Null), Kind::Null);
    assert_eq!(kind_of(Tag::Bool), Kind::Boolean);
    assert_eq!(kind_of(Tag::Int), Kind::Number);
    assert_eq!(kind_of(Tag::Float64), Kind::Number);
    assert_eq!(kind_of(Tag::Text), Kind::Text);
    assert_eq!(kind_of(Tag::Rope), Kind::Text);
    assert_eq!(kind_of(Tag::Symbol), Kind::Symbol);
    assert_eq!(kind_of(Tag::BigInt), Kind::BigInt);
    assert_eq!(kind_of(Tag::ShortBigInt), Kind::BigInt);
    assert_eq!(kind_of(Tag::Object), Kind::Object);
    assert!(is_obj(Some(Tag::Object)) && !is_obj(Some(Tag::Null)) && !is_obj(None));
}

#[test]
fn typed_arrays_are_numbered() {
    let kinds = [
        TypedArray::Uint8Clamped, TypedArray::Int8, TypedArray::Uint8, TypedArray::Int16, TypedArray::Uint16,
        TypedArray::Int32, TypedArray::Uint32, TypedArray::BigInt64, TypedArray::BigUint64, TypedArray::Float16,
        TypedArray::Float32, TypedArray::Float64,
    ];
    for (i, k) in kinds.iter().enumerate() {
        assert_eq!(typed_array_number(*k), i as i32);
        assert_eq!(typed_array_kind(i as i32), Some(*k));
        assert!(is_typed_array_of(i as i32, *k) && !is_typed_array_of(i as i32 + 1, *k));
    }
    assert_eq!(typed_array_kind(12), None);
    assert_eq!(typed_array_kind(-1), None);
    assert_eq!(typed_array_type(true, 4), 4);
    assert_eq!(typed_array_type(false, 4), -1);
    assert!(is_typed_array(0) && !is_typed_array(-1));
    assert!(is_array_buffer_view(3, false) && is_array_buffer_view(-1, true) && !is_array_buffer_view(-1, false));
}

#[test]
fn property_answers_are_told_apart() {
    assert_eq!(property_reply(true, false, true), MaybeBool::JustTrue);
    assert_eq!(property_reply(true, false, false), MaybeBool::JustFalse);
    assert_eq!(property_reply(true, true, true), MaybeBool::Nothing);
    assert_eq!(property_reply(false, false, true), MaybeBool::Nothing);
    assert_eq!(reply_of(true, 1), MaybeBool::JustTrue);
    assert_eq!(reply_of(true, 0), MaybeBool::JustFalse);
    assert_eq!(reply_of(true, -1), MaybeBool::Nothing);
    assert_eq!(reply_of(false, 1), MaybeBool::Nothing);
}

#[test]
fn rejected_writes_are_no_exceptions() {
    assert_eq!(failed_write(false, None), FailedWrite::Rejected);
    assert_eq!(failed_write(true, None), FailedWrite::Rethrown);
    assert_eq!(failed_write(true, Some("boom")), FailedWrite::Rethrown);
    assert_eq!(failed_write(true, Some("'x' is read-only")), FailedWrite::Rejected);
    assert_eq!(failed_write(true, Some("object is not extensible")), FailedWrite::Rejected);
    assert_eq!(write_reply(true, -1, FailedWrite::Rejected), MaybeBool::JustFalse);
    assert_eq!(write_reply(true, -1, FailedWrite::Rethrown), MaybeBool::Nothing);
    assert_eq!(write_reply(true, 1, FailedWrite::Rejected), MaybeBool::JustTrue);
    assert_eq!(write_reply(false, -1, FailedWrite::Rejected), MaybeBool::Nothing);
}

#[test]
fn attributes_are_mapped() {
    assert_eq!(define_attributes(0), 0);
    assert_eq!(define_attributes(1), 2);
    assert_eq!(define_attributes(2), 4);
    assert_eq!(define_attributes(4), 8);
    assert_eq!(define_attributes(7), 14);
    assert_eq!(define_attributes(8), 0);
    assert_eq!(PRIVATE_ATTRIBUTES, 4);
    let f = attr_to_jsprop(5);
    assert!(!f.writable && f.enumerable && !f.configurable);
    let f = attr_to_jsprop(2);
    assert!(f.writable && !f.enumerable && f.configurable);
    assert_eq!(property_attributes(true, 1), Some(0));
    assert_eq!(property_attributes(true, 0), None);
    assert_eq!(property_attributes(true, -1), None);
    assert_eq!(property_attributes(false, 1), None);
}

fn units(s: &str) -> Vec<u16> {
    s.encode_utf16().collect()
}

#[test]
fn array_indices_are_canonical() {
    for yes in ["0", "7", "10", "4294967295"] {
        assert!(jsstr_is_array_index(&units(yes)), "{}", yes);
    }
    for no in ["", "00", "01", "-1", "1.0", "a", "4294967296", "42949672950", "1e3", "٣"] {
        assert!(!jsstr_is_array_index(&units(no)), "{}", no);
    }
}

#[test]
fn names_are_filtered() {
    let names = vec![units("a"), units("1"), units("b1")];
    assert_eq!(jsc_property_names(&names, 0, false), names);
    assert_eq!(jsc_property_names(&names, 0, true), vec![units("a"), units("b1")]);
    assert!(jsc_property_names(&names, SKIP_STRINGS, false).is_empty());
    assert_eq!(qjs_property_names(&vec![1, ATOM_TAG_INT | 5, 3], true), vec![1, 3]);
    assert_eq!(qjs_property_names(&vec![1, ATOM_TAG_INT | 5, 3], false), vec![1, ATOM_TAG_INT | 5, 3]);
    assert_eq!(gpn_from_filter(0), GPN_STRING_MASK | GPN_SYMBOL_MASK);
    assert_eq!(gpn_from_filter(2), GPN_STRING_MASK | GPN_SYMBOL_MASK | GPN_ENUM_ONLY);
    assert_eq!(gpn_from_filter(8), GPN_SYMBOL_MASK);
    assert_eq!(gpn_from_filter(16), GPN_STRING_MASK);
    assert_eq!(gpn_from_filter(24), GPN_STRING_MASK);
    assert!(has_own_property(&vec![4, 5], 5) && !has_own_property(&vec![4, 5], 6));
}

#[test]
fn hashes_are_not_negative() {
    assert_eq!(get_identity_hash(0x1_0000_0001), 0);
    assert_eq!(get_identity_hash(0xffff_ffff), 0x7fff_ffff);
    assert_eq!(get_identity_hash(0x10), 0x10);
    assert_eq!(qjs_get_identity_hash(0x1_0000_0001), 1);
    assert_eq!(qjs_get_identity_hash(0x8000_0000), 1);
    assert_eq!(qjs_get_identity_hash(0xffff_ffff), 0x7fff_ffff);
    assert_eq!(qjs_get_identity_hash(0x10), 0x10);
    assert_eq!(name_identity_hash(0), 1);
    assert!(name_identity_hash(7) >= 1 && name_identity_hash(u32::MAX) >= 1);
    assert_eq!(name_identity_hash(7), 146274911);
    assert_eq!(name_identity_hash(1), 1399529529);
}

#[test]
fn previews_take_entries_before_values() {
    assert_eq!(preview_begin(false, None), (Preview::Done(None), None));
    assert_eq!(preview_begin(true, Some((4, true))), (Preview::Done(Some(4)), Some(true)));
    assert_eq!(preview_begin(true, None), (Preview::CallEntries, None));
    assert_eq!(entries_called(Some(5)), (Preview::Collect(5), Some(true)));
    assert_eq!(entries_called(None), (Preview::CallValues, None));
    assert_eq!(values_called(Some(5)), (Preview::Collect(5), Some(false)));
    assert_eq!(values_called(None), (Preview::Done(None), Some(false)));
    assert_eq!(collected(Some(6), true), Preview::Flatten(6));
    assert_eq!(collected(Some(6), false), Preview::Done(Some(6)));
    assert_eq!(collected(None, true), Preview::Done(None));
    assert_eq!(flattened(6, Some(7)), Preview::Done(Some(7)));
    assert_eq!(flattened(6, None), Preview::Done(Some(6)));
    assert!(preview_is_key_value(true, true) && !preview_is_key_value(true, false));
    assert_eq!(preview_reply(false, Some(5), 9), None);
    assert_eq!(preview_reply(true, Some(5), 9), Some(5));
    assert_eq!(preview_reply(true, None, 9), Some(9));
}

#[test]
fn object_answers_have_defaults() {
    assert_eq!(real_named_property(Read::Exception), None);
    assert_eq!(real_named_property(Read::Undefined), None);
    assert_eq!(real_named_property(Read::Value(3)), Some(3));
    assert_eq!(constructor_name(Some("C".to_string())), "C");
    assert_eq!(constructor_name(None), "Object");
    assert_eq!(array_length(Some(5)), 5);
    assert_eq!(array_length(Some(-5)), 0);
    assert_eq!(array_length(None), 0);
    assert_eq!(array_size(-1), 0);
    assert_eq!(array_size(3), 3);
    assert_eq!(integrity_function(IntegrityLevel::Frozen), "freeze");
    assert_eq!(integrity_function(IntegrityLevel::Sealed), "seal");
}

#[test]
fn wrapped_objects_are_found() {
    let mut w = Wrappers::new();
    assert_eq!(w.unwrap(1, 2), 0);
    w.wrap(1, 10, 2);
    w.wrap(1, 11, 3);
    w.wrap(0, 12, 2);
    assert_eq!((w.unwrap(1, 2), w.unwrap(1, 3), w.unwrap(1, 4), w.unwrap(0, 2)), (10, 11, 0, 0));
    w.wrap(1, 13, 2);
    assert_eq!((w.unwrap(1, 2), w.unwrap(1, 3)), (13, 11));
    assert!(w.is_api_wrapper(1) && !w.is_api_wrapper(2) && !w.is_api_wrapper(0));
}

#[test]
fn numbers_are_written_and_read() {
    let mut b = vec![7u8];
    push_little_endian(&mut b, 0x0102_0304, 4);
    push_little_endian(&mut b, u64::MAX, 8);
    assert_eq!(&b[..5], &[7, 4, 3, 2, 1]);
    assert_eq!(number_at(&b, 1, 4), 0x0102_0304);
    assert_eq!(number_at(&b, 5, 8), u64::MAX);
    assert_eq!(number_at(&b, 0, 0), 0);
}

#[test]
fn handle_maps_hold_what_was_put_in() {
    let mut m: HandleMap<char> = HandleMap::new();
    m.insert(3, 'a');
    m.insert(4, 'b');
    m.insert(3, 'c');
    assert_eq!(m.get(3), Some(&'c'));
    assert!(m.contains(4) && !m.contains(5));
    if let Some(v) = m.get_mut(4) {
        *v = 'd';
    }
    assert_eq!(m.get(4), Some(&'d'));
    m.remove(3);
    assert_eq!((m.get(3), m.get(4)), (None, Some(&'d')));
}
