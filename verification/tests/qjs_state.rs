//! The QuickJS side: what the layer keeps beside the engine.

use v8x::jsc::terminate::{registry, HeapWarning, DEFAULT_LIMIT};
use v8x::qjs::backing_store::{contents, BackingStore, BackingStores, Release};
use v8x::qjs::call::{
    construct_result, count_arguments, function_shape, number_of, CallResult, CallbackInfo,
    Dispatch, DispatchEntry, ExternalClass, Number, CONSTRUCTOR_MAGIC, GENERIC_MAGIC,
};
use v8x::qjs::cells::Cells;
use v8x::qjs::embedder_data::{
    checkpoint_step, collection_size, garbage_layout, promise_reject_event, Checkpoint,
    ContinuationData, EmbedderData, ExternalMemory, ResourceConstraints, SecurityTokens,
};
use v8x::qjs::isolate::{ctx_of, HandleScope, Isolates};
use v8x::qjs::platform::Platforms;
use v8x::qjs::serializer::{
    read_le_u32, read_u8, Deserializer, Serializer, TAG_DOUBLE, TAG_RAW, TAG_U32, TAG_U64,
    TAG_VALUE, WIRE_FORMAT_VERSION,
};
use v8x::qjs::template::{
    accessors_to_define, properties_to_set, Accessor, Descriptor, Property, TemplateKind, Templates, DONT_DELETE,
    DONT_ENUM,
};
use v8x::status::MaybeBool;

#[test]
fn records_are_read_back() {
    let mut s = Serializer::new();
    s.write_header();
    s.write_uint32(0xdead_beef);
    s.write_uint64(u64::MAX - 1);
    s.write_double(1.5f64.to_bits());
    assert_eq!(s.write_value(Some(&[1, 2, 3])), MaybeBool::JustTrue);
    assert_eq!(s.write_value(None), MaybeBool::JustFalse);
    s.write_raw_bytes(Some(&[9, 8]), 2);
    let mut d = Deserializer::new(s.bytes().to_vec());
    assert_eq!(d.read_header(), MaybeBool::JustTrue);
    assert_eq!(d.read_uint32(), Some(0xdead_beef));
    assert_eq!(d.read_uint64(), Some(u64::MAX - 1));
    assert_eq!(f64::from_bits(d.read_double().unwrap()), 1.5);
    let (start, len) = d.read_value().unwrap();
    assert_eq!(&d.bytes()[start..start + len], &[1, 2, 3]);
    let start = d.read_raw_bytes(2).unwrap();
    assert_eq!(&d.bytes()[start..start + 2], &[9, 8]);
    assert_eq!(d.read_uint32(), None);
    assert!(s.release().is_empty());
}

#[test]
fn records_have_their_form() {
    let mut s = Serializer::new();
    s.write_uint32(1);
    // A header comes first or not at all.
    s.write_header();
    assert_eq!(s.bytes(), &[TAG_U32, 1, 0, 0, 0]);
    let mut s = Serializer::new();
    s.write_uint64(2);
    s.write_double(3);
    s.write_value(Some(&[7]));
    s.write_raw_bytes(None, 5);
    assert_eq!(
        s.bytes(),
        &[
            TAG_U64, 2, 0, 0, 0, 0, 0, 0, 0, TAG_DOUBLE, 3, 0, 0, 0, 0, 0, 0, 0, TAG_VALUE, 1, 0, 0, 0, 7, TAG_RAW, 5, 0,
            0, 0,
        ]
    );
    let mut s = Serializer::new();
    s.write_header();
    s.write_header();
    assert_eq!(s.bytes().len(), 4);
    assert_eq!(WIRE_FORMAT_VERSION, 15);
}

#[test]
fn failed_reads_move_nothing() {
    let mut d = Deserializer::new(vec![TAG_U32, 1, 0, 0]);
    assert_eq!(d.read_uint32(), None);
    assert_eq!(d.read_uint64(), None);
    assert_eq!(d.read_double(), None);
    assert_eq!(d.read_raw_bytes(1), None);
    let mut d = Deserializer::new(vec![TAG_U32, 5, 0, 0, 0]);
    assert_eq!(d.read_uint64(), None);
    assert_eq!(d.read_uint32(), Some(5));
    let mut d = Deserializer::new(vec![TAG_RAW, 2, 0, 0, 0, 7, 8]);
    assert_eq!(d.read_raw_bytes(3), None);
    assert_eq!(d.read_raw_bytes(2), Some(5));
    let mut d = Deserializer::new(vec![]);
    assert_eq!(d.read_header(), MaybeBool::JustTrue);
    assert_eq!(d.read_value(), None);
}

#[test]
fn bytes_and_words_are_read() {
    let b = [1u8, 2, 3, 4, 5];
    let mut pos: usize = 0;
    assert_eq!(read_u8(&b, &mut pos), Some(1));
    assert_eq!(read_le_u32(&b, &mut pos), Some(0x0504_0302));
    assert_eq!(pos, 5);
    assert_eq!(read_u8(&b, &mut pos), None);
    assert_eq!(read_le_u32(&b, &mut pos), None);
    assert_eq!(pos, 5);
}

#[test]
fn backing_stores_are_counted() {
    let mut s = BackingStores::new();
    s.insert(1, BackingStore::new_allocated(100, 8, false));
    assert_eq!((s.data(1), s.byte_length(1), s.is_shared(1)), (100, 8, false));
    assert_eq!((s.data(0), s.byte_length(0), s.is_shared(0)), (0, 0, false));
    assert_eq!(s.copy(1), 1);
    assert_eq!(s.copy(0), 0);
    assert_eq!(s.release(1), Release::Nothing);
    assert_eq!(s.lend(1), Some((100, 8)));
    assert_eq!(s.lend(0), None);
    assert_eq!(s.release(1), Release::Nothing);
    let mut pointer: usize = 1;
    assert_eq!(s.reset(&mut pointer), Release::Free(100));
    assert_eq!(pointer, 0);
    assert_eq!(s.reset(&mut pointer), Release::Nothing);
    assert_eq!(s.release(0), Release::Nothing);
}

#[test]
fn backing_stores_are_freed_their_own_way() {
    assert_eq!(BackingStore::new_allocated(100, 0, true).destroy(), Release::Nothing);
    assert_eq!(
        BackingStore::with_data(100, 8, 7, 9).destroy(),
        Release::Call { deleter: 7, data: 100, byte_length: 8, deleter_data: 9 }
    );
    assert_eq!(BackingStore::for_buffer(100, 8, true).destroy(), Release::Nothing);
    assert!(BackingStore::for_buffer(100, 8, true).is_shared);
    assert_eq!(contents(100, 4, 2), (104, 2));
    assert_eq!(contents(0, 4, 2), (0, 2));
}

#[test]
fn platforms_live_as_long_as_their_pointers() {
    let mut p = Platforms::new();
    let mut a = p.convert(50, 60);
    assert_eq!(p.get(Some(a)), 50);
    assert_eq!(p.use_count(Some(a)), 1);
    let mut b = p.copy(Some(a));
    assert_eq!(p.use_count(Some(b)), 2);
    assert_eq!(p.reset(&mut b), 0);
    assert_eq!(p.use_count(Some(a)), 1);
    assert_eq!(p.reset(&mut a), 50);
    assert_eq!((a.platform, a.refcount), (0, 0));
    assert_eq!(p.reset(&mut a), 0);
    assert_eq!(p.use_count(Some(a)), 0);
    let none = p.convert(0, 61);
    assert_eq!((none.platform, none.refcount), (0, 0));
    assert_eq!((p.get(None), p.use_count(None)), (0, 0));
    assert_eq!(p.copy(None).platform, 0);
}

#[test]
fn registered_functions_are_found() {
    let mut d = Dispatch::new();
    assert_eq!(d.register_dispatch(10, 20), 0);
    assert_eq!(d.register_dispatch(11, 21), 1);
    assert_eq!(d.lookup_dispatch(1), Some(DispatchEntry { callback: 11, data: 21 }));
    assert_eq!(d.lookup_dispatch(0), Some(DispatchEntry { callback: 10, data: 20 }));
    assert_eq!(d.lookup_dispatch(2), None);
    assert_eq!(d.lookup_dispatch(-1), None);
}

#[test]
fn calls_give_back_what_was_set() {
    assert_eq!((count_arguments(3), count_arguments(-3)), (3, 0));
    let f = function_shape(-1, true);
    assert_eq!((f.length, f.prototype), (0, CONSTRUCTOR_MAGIC));
    let f = function_shape(2, false);
    assert_eq!((f.length, f.prototype), (2, GENERIC_MAGIC));
    let mut i = CallbackInfo::new(1, 2, DispatchEntry { callback: 3, data: 4 }, 5, true, vec![6, 7]);
    assert_eq!((i.isolate, i.this, i.data, i.new_target, i.is_construct), (1, 2, 4, 5, true));
    assert_eq!((i.get(0), i.get(1), i.get(2), i.get(-1), i.length()), (6, 7, 0, 0, 2));
    assert_eq!(i.result(false), CallResult::Undefined);
    i.set_return_value(8);
    assert_eq!(i.result(false), CallResult::Value(8));
    assert_eq!(i.result(true), CallResult::Exception);
    assert_eq!(construct_result(CallResult::Value(8), true, 2), CallResult::Value(8));
    assert_eq!(construct_result(CallResult::Value(8), false, 2), CallResult::Value(2));
    assert_eq!(construct_result(CallResult::Undefined, false, 2), CallResult::Value(2));
    assert_eq!(construct_result(CallResult::Exception, true, 2), CallResult::Exception);
    assert_eq!(number_of(5), Number::Int(5));
    assert_eq!(number_of(i32::MAX as u32), Number::Int(i32::MAX));
    assert_eq!(number_of(u32::MAX), Number::Double(u32::MAX));
}

#[test]
fn external_values_have_one_class() {
    let mut c = ExternalClass { id: 0 };
    assert!(!c.value_is_external(true, 5));
    assert_eq!(c.class_id(9), 9);
    assert_eq!(c.class_id(10), 9);
    assert!(c.value_is_external(true, 5));
    assert!(!c.value_is_external(false, 5) && !c.value_is_external(true, 0));
}

#[test]
fn cells_hold_values_until_reset() {
    let mut c = Cells::new();
    assert_eq!(c.global_new(0, 1, false, 2, 100), 0);
    assert_eq!(c.global_new(5, 1, true, 2, 100), 5);
    assert_eq!(c.global_new(5, 1, false, 0, 100), 0);
    assert_eq!(c.global_new(5, 77, false, 2, 100), 100);
    assert_eq!(c.all.get(100), Some(&77));
    assert_eq!(c.global_reset(0, false), None);
    assert_eq!(c.global_reset(5, true), None);
    assert_eq!(c.global_reset(100, false), Some(77));
    assert!(!c.all.contains(100));
    let mut slot: usize = 0;
    assert_eq!(c.traced_reset(&mut slot, 5, 78, false, 2, 101), None);
    assert_eq!(slot, 101);
    assert_eq!(c.traced_reset(&mut slot, 0, 0, false, 2, 102), Some(78));
    assert_eq!(slot, 0);
    assert_eq!(c.traced_reset(&mut slot, 5, 79, false, 2, 103), None);
    assert_eq!(c.traced_destruct(&mut slot), Some(79));
    assert_eq!((slot, c.traced_destruct(&mut slot)), (0, None));
    c.eternal_set(&mut slot, 5, 80, 2, 104);
    assert_eq!((slot, c.all.get(104)), (104, Some(&80)));
    c.eternal_set(&mut slot, 5, 81, 0, 105);
    assert_eq!(slot, 0);
}

#[test]
fn embedder_data_grows_as_needed() {
    let mut e = EmbedderData::new();
    assert_eq!((e.count(1), e.get(1, 0)), (0, 0));
    assert_eq!(e.set(1, 2, 30), 0);
    assert_eq!((e.count(1), e.get(1, 2), e.get(1, 1), e.get(1, 9)), (3, 30, 0, 0));
    assert_eq!(e.set(1, 2, 31), 30);
    assert_eq!((e.get(1, 2), e.get(2, 2)), (31, 0));
    assert_eq!(e.get(1, -1), 0);
}

#[test]
fn tokens_and_data_are_kept() {
    let mut t = SecurityTokens::new();
    assert_eq!(t.get_security_token(1), None);
    assert_eq!(t.set_security_token(1, 5), None);
    assert_eq!(t.set_security_token(1, 6), Some(5));
    assert_eq!(t.get_security_token(1), Some(6));
    assert_eq!(t.set_security_token(0, 7), None);
    assert_eq!(t.get_security_token(0), None);
    let mut c = ContinuationData { value: 0 };
    assert_eq!(c.replace(4), 0);
    assert_eq!(c.replace(5), 4);
    let mut m = ExternalMemory { total: 0 };
    assert_eq!(m.adjust(10), 10);
    assert_eq!(m.adjust(-15), -5);
    assert_eq!((promise_reject_event(0), promise_reject_event(1)), (0, 1));
    assert_eq!(checkpoint_step(0), Checkpoint::Stop);
    assert_eq!(checkpoint_step(1), Checkpoint::GoOn);
    assert_eq!(checkpoint_step(-1), Checkpoint::DropException);
    assert_eq!(garbage_layout(4, 2), (12, 8));
    assert_eq!(garbage_layout(0, 16), (8, 16));
    assert_eq!((collection_size(Some(3)), collection_size(Some(-3)), collection_size(None)), (3, 0, 0));
    let mut r = ResourceConstraints {
        code_range_size: 1,
        max_old_generation_size: 2,
        max_young_generation_size: 3,
        initial_old_generation_size: 4,
        initial_young_generation_size: 5,
        physical_memory_size: 6,
        stack_limit: 7,
    };
    r.configure_defaults(1, 2);
    assert_eq!((r.code_range_size, r.max_old_generation_size, r.physical_memory_size, r.stack_limit), (0, 0, 0, 0));
}

#[test]
fn scopes_give_back_their_handles() {
    let mut i = Isolates::new();
    i.isolate_new(1, 100);
    i.isolate_enter(1);
    assert_eq!((i.current_iso(), i.current_ctx(), i.ctx()), (1, 100, 100));
    assert!(i.intern(11));
    let s = i.scope_construct(1);
    assert!(i.intern(12) && i.intern(13));
    let mut back = i.scope_destruct(s);
    back.sort();
    assert_eq!(back, vec![12, 13]);
    assert_eq!(i.all.get(1).unwrap().handles, vec![11]);
    assert!(i.scope_destruct(HandleScope { isolate: 0, depth: 0 }).is_empty());
    assert_eq!(i.dispose(1), vec![11]);
    assert_eq!((i.current_iso(), i.last), (0, 0));
    assert!(!i.intern(14));
    assert!(i.dispose(0).is_empty());
}

#[test]
fn contexts_are_entered_and_left() {
    let mut i = Isolates::new();
    i.isolate_new(1, 100);
    i.context_enter(200);
    assert_eq!(i.current_ctx(), 0);
    i.isolate_enter(1);
    i.context_enter(200);
    i.context_enter(201);
    assert_eq!((i.current_ctx(), i.iso_ctx(1), i.fallback_ctx(1), i.ctx_for(1), i.ctx_for(0)), (201, 201, 201, 201, 201));
    i.context_exit();
    assert_eq!(i.current_ctx(), 200);
    i.context_exit();
    assert_eq!(i.current_ctx(), 100);
    assert_eq!((i.stable_ctx(), i.dup_context(0), i.dup_context(5)), (100, 100, 5));
    assert_eq!((i.context_new(1), i.context_new(0)), (100, 0));
    i.isolate_exit();
    assert_eq!((i.current, i.last), (0, 1));
    i.refresh_current_ctx(1);
    i.set_current(1);
    i.clear_last_iso(1);
    assert_eq!(i.last, 0);
    assert_eq!((i.iso_ctx(0), i.fallback_ctx(0), ctx_of(9)), (0, 0, 9));
}

#[test]
fn isolates_have_four_slots() {
    let mut i = Isolates::new();
    i.isolate_new(1, 100);
    i.set_data(1, 3, 7);
    i.set_data(1, 4, 8);
    assert_eq!((i.get_data(1, 3), i.get_data(1, 4), i.get_data(1, 0)), (7, 0, 0));
}

#[test]
fn templates_keep_what_instances_get() {
    let mut t = Templates::new();
    t.register_template(40, TemplateKind::Object);
    assert!(t.is_template_ptr(40) && !t.is_template_ptr(41) && !t.is_template_ptr(0));
    t.function_template_new(1, 2, 3, 10, 20, 2);
    assert_eq!((t.prototype_template(1), t.instance_template(1), t.prototype_template(9)), (2, 3, 0));
    assert_eq!(t.template_kind(1), Some(TemplateKind::Function));
    assert_eq!(t.template_kind(3), Some(TemplateKind::Object));
    assert_eq!(t.template_kind(9), None);
    t.set(1, Property { key: 5, value: 6, attributes: 0 });
    t.set(2, Property { key: 0, value: 7, attributes: 0 });
    t.set(2, Property { key: 8, value: 9, attributes: 0 });
    t.set(9, Property { key: 8, value: 9, attributes: 0 });
    assert_eq!(t.functions.get(1).unwrap().properties.len(), 1);
    let set = properties_to_set(&t.objects.get(2).unwrap().properties);
    assert_eq!(set.iter().map(|p| p.key).collect::<Vec<usize>>(), vec![8]);
    t.object_template_new(50);
    t.set_internal_field_count(50, 3);
    t.set_accessor_property(50, Accessor { key: 1, getter: 2, setter: 3, attributes: DONT_ENUM });
    assert_eq!((t.objects.get(50).unwrap().internal_field_count, t.objects.get(50).unwrap().accessors.len()), (3, 1));
    t.set_class_name(1, "C".to_string());
    assert_eq!(t.functions.get(1).unwrap().class_name.as_deref(), Some("C"));
    t.set_accessor_property(50, Accessor { key: 0, getter: 2, setter: 3, attributes: 0 });
    t.set_accessor_property(50, Accessor { key: 4, getter: 5, setter: 0, attributes: DONT_DELETE });
    assert_eq!(
        accessors_to_define(&t.objects.get(50).unwrap().accessors),
        vec![
            Descriptor { key: 1, getter: 2, setter: 3, enumerable: false, configurable: true },
            Descriptor { key: 4, getter: 5, setter: 0, enumerable: true, configurable: false },
        ]
    );
}

#[test]
fn prototypes_are_made_once() {
    let mut t = Templates::new();
    t.function_template_new(1, 2, 3, 0, 0, 0);
    t.function_template_new(4, 5, 6, 0, 0, 0);
    t.inherit(4, 1);
    let mut chain = t.prototypes_to_build(4);
    chain.sort();
    assert_eq!(chain, vec![1, 4]);
    t.prototype_built(1, 90);
    assert_eq!(t.prototypes_to_build(4), vec![4]);
    t.prototype_built(4, 91);
    assert!(t.prototypes_to_build(4).is_empty());
    assert_eq!(t.functions.get(4).unwrap().cached_proto, 91);
}

#[test]
fn termination_is_requested_and_cancelled() {
    let mut w = registry();
    w.request_terminate(1);
    assert!(!w.is_terminating(1));
    w.install(1, 5, 0);
    w.request_terminate(1);
    assert!(w.is_terminating(1) && !w.is_terminating(2) && !w.is_terminating(0));
    w.cancel_terminate(1);
    assert!(!w.is_terminating(1));
    assert_eq!(w.uninstall(1), Some(5));
    assert_eq!(w.uninstall(1), None);
    assert!(w.lookup(1).is_none());
}

#[test]
fn heap_warnings_are_not_nested() {
    let mut w = registry();
    w.install(1, 5, 0);
    assert!(w.maybe_drive_heap_callback(1, 0).is_none());
    w.set_heap_callback(1, 7, 8);
    assert_eq!(w.lookup(1).unwrap().heap_limit, DEFAULT_LIMIT);
    assert!(w.maybe_drive_heap_callback(1, 5).is_none());
    let warning = w.maybe_drive_heap_callback(1, DEFAULT_LIMIT);
    assert!(matches!(
        warning,
        Some(HeapWarning { callback: 7, data: 8, limit: 16_777_216, initial: 16_777_216 })
    ));
    assert!(w.maybe_drive_heap_callback(1, DEFAULT_LIMIT).is_none());
    w.heap_callback_returned(1, DEFAULT_LIMIT, DEFAULT_LIMIT * 2);
    assert_eq!(w.lookup(1).unwrap().heap_limit, DEFAULT_LIMIT * 2);
    assert!(w.maybe_drive_heap_callback(1, DEFAULT_LIMIT).is_none());
    // A size that is not known counts as near.
    assert!(w.maybe_drive_heap_callback(1, 0).is_some());
    w.heap_callback_returned(1, DEFAULT_LIMIT * 2, 1);
    assert_eq!(w.lookup(1).unwrap().heap_limit, DEFAULT_LIMIT * 2);
    w.clear_heap_callback(1);
    assert!(w.maybe_drive_heap_callback(1, 0).is_none());
}
