//! The JavaScriptCore side: modules and scripts.

use v8x::code_cache::{
    cached_data_from_bytes, cached_data_new, cached_data_version_tag, make_placeholder_code_cache,
    BufferPolicy, Engine,
};
use v8x::import_host::{
    attribute_of, import_arguments, import_attributes, ImportArguments, ImportHost, Step as ImportStep,
};
use v8x::jsc::evaluate::{registrations, Completion, Evaluation, Step as EvalStep};
use v8x::jsc::failure::{link_failure, message, raised, Failure, Raised};
use v8x::jsc::instantiate::{enter, linked, proceed, resolved, set_status, Frame, Step};
use v8x::jsc::module::{
    compile_module, dump_file_name, get_module_namespace, get_module_requests, get_status, holds,
    import_meta, is_graph_async, namespace_found, native_eligible, native_modules_enabled,
    native_record, read_request, set_synthetic_module_export, synthetic_record,
    synthetic_record_exports, Build, ExportTarget, ImportMeta, ModuleRecord, NamespaceAnswer, RequestRead,
};
use v8x::jsc::populate::{self, Step as PopulateStep};
use v8x::jsc::script::{create_code_cache, origin_resource_name, NameValue, Run, Scripts};
use v8x::status::{just_bool, MaybeBool, ModuleStatus};

fn list(v: &[&str]) -> Vec<String> {
    v.iter().map(|s| s.to_string()).collect()
}

fn source_module(specifier: &str, text: &str) -> ModuleRecord {
    compile_module(text, specifier.to_string()).ok().unwrap().record
}

fn with_deps(mut m: ModuleRecord, deps: &[usize]) -> ModuleRecord {
    m.dependencies = deps.to_vec();
    m.status = ModuleStatus::Instantiated;
    m
}

#[test]
fn modules_are_compiled() {
    let m = compile_module("import a from 'b';\nexport { a };\nawait a;", "m.js".to_string()).ok().unwrap();
    assert_eq!(m.record.status, ModuleStatus::Uninstantiated);
    assert_eq!(m.record.import_specifiers, list(&["b"]));
    assert_eq!(m.record.export_names, list(&["a"]));
    assert_eq!(m.record.specifier, "m.js");
    assert!(m.record.is_async && m.record.has_namespace && !m.record.native && !m.record.has_steps);
    assert!(m.record.source.is_some() && m.record.dependencies.is_empty());
    assert_eq!(m.reexports, vec![("a".to_string(), "b".to_string(), "default".to_string())]);
}

#[test]
fn unsupported_modules_are_refused() {
    let e = compile_module("export * from nowhere", "m.js".to_string()).err().unwrap();
    assert_eq!(e, "v82jsc: unsupported ES module syntax in m.js");
}

#[test]
fn native_and_synthetic_records_are_made() {
    let n = native_record("await 1", "n.js".to_string(), list(&["x"]));
    assert!(n.native && n.is_async && !n.has_namespace && !n.has_steps && n.source.is_none());
    assert_eq!(n.import_specifiers, list(&["x"]));
    let s = synthetic_record("s.js".to_string(), list(&["a", "b"]), true);
    assert!(s.native && s.has_steps && s.has_namespace && !s.is_async);
    assert_eq!(s.export_names, list(&["a", "b"]));
    assert_eq!(s.status, ModuleStatus::Uninstantiated);
}

#[test]
fn requests_are_read_in_full() {
    assert_eq!(read_request(-1, 16), RequestRead::Skip);
    assert_eq!(read_request(0, 16), RequestRead::Take(0));
    assert_eq!(read_request(15, 16), RequestRead::Take(15));
    assert_eq!(read_request(16, 16), RequestRead::Again(17));
    assert_eq!(read_request(40, 16), RequestRead::Again(41));
}

#[test]
fn awaiting_spreads_through_the_graph() {
    let g = vec![
        with_deps(source_module("a", "x"), &[1]),
        with_deps(source_module("b", "x"), &[0, 2]),
        with_deps(source_module("c", "await x"), &[]),
        with_deps(source_module("d", "x"), &[3, 9]),
    ];
    assert!(is_graph_async(&g, 0));
    assert!(is_graph_async(&g, 1));
    assert!(is_graph_async(&g, 2));
    assert!(!is_graph_async(&g, 3));
    assert!(!is_graph_async(&g, 4));
}

#[test]
fn status_is_that_of_the_record_first() {
    let mut g = vec![native_record("x", "n".to_string(), vec![]), source_module("m", "x")];
    let numbers = [
        ModuleStatus::Uninstantiated,
        ModuleStatus::Instantiating,
        ModuleStatus::Instantiated,
        ModuleStatus::Evaluating,
        ModuleStatus::Evaluated,
    ];
    for (i, s) in numbers.iter().enumerate() {
        assert_eq!(get_status(&g, 0, Some(i as i32), &[]), *s);
    }
    assert_eq!(get_status(&g, 0, Some(-1), &[]), ModuleStatus::Uninstantiated);
    assert_eq!(get_status(&g, 0, Some(5), &[]), ModuleStatus::Uninstantiated);
    assert_eq!(get_status(&g, 1, Some(4), &[]), ModuleStatus::Uninstantiated);
    set_status(&mut g, 1, ModuleStatus::Evaluating);
    assert_eq!(get_status(&g, 1, None, &[]), ModuleStatus::Evaluating);
    assert_eq!(get_status(&g, 1, None, &[0, 1]), ModuleStatus::Evaluated);
    set_status(&mut g, 1, ModuleStatus::Errored);
    assert_eq!(get_status(&g, 1, None, &[1]), ModuleStatus::Errored);
    assert_eq!(get_status(&g, 2, None, &[]), ModuleStatus::Errored);
    assert!(holds(&[3, 4], 4) && !holds(&[3, 4], 5));
}

#[test]
fn found_namespaces_are_kept() {
    let mut g = vec![native_record("x", "n".to_string(), vec![]), source_module("m", "x")];
    assert_eq!(get_module_namespace(&g, 0), NamespaceAnswer::AskRecord);
    namespace_found(&mut g, 0, false);
    assert_eq!(get_module_namespace(&g, 0), NamespaceAnswer::AskRecord);
    namespace_found(&mut g, 0, true);
    assert_eq!(get_module_namespace(&g, 0), NamespaceAnswer::Kept);
    assert_eq!(get_module_namespace(&g, 1), NamespaceAnswer::Kept);
    g[1].has_namespace = false;
    assert_eq!(get_module_namespace(&g, 1), NamespaceAnswer::Absent);
    assert_eq!(get_module_namespace(&g, 2), NamespaceAnswer::Absent);
}

#[test]
fn synthetic_exports_go_where_importers_look() {
    let g = vec![
        synthetic_record("s".to_string(), vec![], true),
        synthetic_record("t".to_string(), vec![], false),
        native_record("x", "n".to_string(), vec![]),
    ];
    assert_eq!(set_synthetic_module_export(&g, 0, Some("a")), ExportTarget::NamespaceAndRecord);
    assert_eq!(set_synthetic_module_export(&g, 0, Some("a\0")), ExportTarget::Namespace);
    assert_eq!(set_synthetic_module_export(&g, 1, Some("a")), ExportTarget::Namespace);
    assert_eq!(set_synthetic_module_export(&g, 1, None), ExportTarget::Nowhere);
    assert_eq!(set_synthetic_module_export(&g, 2, Some("a")), ExportTarget::Nowhere);
    assert_eq!(set_synthetic_module_export(&g, 3, Some("a")), ExportTarget::Nowhere);
}

#[test]
fn module_requests_carry_attribute_codes() {
    let g = vec![
        native_record("x", "n".to_string(), list(&["a", "b\0", "c"])),
        source_module("m", "import 'z';"),
    ];
    let r = get_module_requests(&g, 0, &[3, 0, 2]);
    let seen: Vec<(Option<&str>, i32)> = r.iter().map(|q| (q.specifier.as_deref(), q.attribute)).collect();
    assert_eq!(seen, vec![(Some("a"), 3), (None, 0), (Some("c"), 2)]);
    let r = get_module_requests(&g, 1, &[3]);
    assert_eq!(r.len(), 1);
    assert_eq!((r[0].specifier.as_deref(), r[0].attribute), (Some("z"), 0));
    assert!(get_module_requests(&g, 2, &[]).is_empty());
}

#[test]
fn import_meta_falls_back_to_the_key() {
    assert_eq!(import_meta(false, true, true, true), ImportMeta::Missing);
    assert_eq!(import_meta(true, true, true, true), ImportMeta::FilledByHost);
    assert_eq!(import_meta(true, true, false, true), ImportMeta::Empty);
    assert_eq!(import_meta(true, false, true, true), ImportMeta::Address);
    assert_eq!(import_meta(true, false, true, false), ImportMeta::Empty);
}

#[test]
fn native_modules_need_the_vendored_engine() {
    assert!(native_modules_enabled(Build::Vendored));
    assert!(!native_modules_enabled(Build::System));
    assert!(native_eligible("any"));
    let names = list(&["a", "b\0", "c"]);
    assert_eq!(synthetic_record_exports(Build::Vendored, "m", &names), Some(list(&["a", "c"])));
    assert_eq!(synthetic_record_exports(Build::Vendored, "m\0", &names), None);
    assert_eq!(synthetic_record_exports(Build::System, "m", &names), None);
}

#[test]
fn dumps_are_numbered_and_named() {
    assert_eq!(dump_file_name(7, "file:///a b.js"), "007.file____a_b_js.js");
    assert_eq!(dump_file_name(1234, "é1"), "1234.é1.js");
    assert_eq!(dump_file_name(0, ""), "000..js");
}

#[test]
fn instantiation_resolves_each_import_once() {
    let mut g = vec![
        source_module("a", "import 'b';\nimport 'c';"),
        source_module("b", "import 'a';"),
        native_record("x", "c".to_string(), vec![]),
    ];
    let mut frames: Vec<Frame> = Vec::new();
    assert!(matches!(enter(&mut g, &mut frames, 0), Step::Continue));
    assert_eq!(g[0].status, ModuleStatus::Instantiating);
    assert!(matches!(proceed(&mut g, &mut frames), Step::Resolve { module: 0, index: 0 }));
    assert!(matches!(resolved(&mut g, &mut frames, Some(1)), Step::Continue));
    assert!(matches!(proceed(&mut g, &mut frames), Step::Resolve { module: 1, index: 0 }));
    // The cycle is cut: the importing module is under way.
    assert!(matches!(resolved(&mut g, &mut frames, Some(0)), Step::Continue));
    assert!(matches!(proceed(&mut g, &mut frames), Step::Continue));
    assert_eq!(g[1].status, ModuleStatus::Instantiated);
    assert_eq!(g[1].dependencies, vec![0]);
    assert!(matches!(proceed(&mut g, &mut frames), Step::Resolve { module: 0, index: 1 }));
    assert!(matches!(resolved(&mut g, &mut frames, Some(2)), Step::Link(2)));
    assert!(matches!(linked(&mut g, &frames, 2, true), Step::Continue));
    assert!(matches!(proceed(&mut g, &mut frames), Step::Done(MaybeBool::JustTrue)));
    assert_eq!(g[0].dependencies, vec![1, 2]);
    assert_eq!(g[2].status, ModuleStatus::Instantiated);
    assert!(matches!(enter(&mut g, &mut frames, 0), Step::Done(MaybeBool::JustTrue)));
    assert!(matches!(enter(&mut g, &mut frames, 3), Step::Done(MaybeBool::JustFalse)));
}

#[test]
fn unresolved_imports_are_passed_over() {
    let mut g = vec![source_module("a", "import 'b';")];
    let mut frames: Vec<Frame> = Vec::new();
    enter(&mut g, &mut frames, 0);
    proceed(&mut g, &mut frames);
    assert!(matches!(resolved(&mut g, &mut frames, None), Step::Continue));
    assert!(matches!(proceed(&mut g, &mut frames), Step::Done(MaybeBool::JustTrue)));
    assert!(g[0].dependencies.is_empty());
}

#[test]
fn failed_links_mark_the_module() {
    let mut g = vec![native_record("x", "c".to_string(), vec![])];
    let mut frames: Vec<Frame> = Vec::new();
    assert!(matches!(enter(&mut g, &mut frames, 0), Step::Link(0)));
    assert!(matches!(linked(&mut g, &frames, 0, false), Step::Done(MaybeBool::Nothing)));
    assert_eq!(g[0].status, ModuleStatus::Errored);
}

fn populate_all(g: &mut Vec<ModuleRecord>, root: usize, targets: &[&[Option<usize>]]) -> (bool, Vec<String>) {
    let mut frames: Vec<populate::Frame> = Vec::new();
    let mut log: Vec<String> = Vec::new();
    let mut step = populate::start(g, &mut frames, root);
    loop {
        match step {
            PopulateStep::Done(ok) => return (ok, log),
            PopulateStep::Resolve { module, index } => {
                log.push(format!("resolve {} {}", module, index));
                populate::resolved(g, &mut frames, targets[module][index]);
            }
            PopulateStep::AddDependency { module, index, dep } => {
                log.push(format!("add {} {} {}", module, index, dep));
            }
            PopulateStep::Evaluate(d) => log.push(format!("evaluate {}", d)),
            PopulateStep::Continue => {}
        }
        step = populate::proceed(g, &mut frames);
    }
}

#[test]
fn native_graphs_are_populated() {
    let mut g = vec![
        native_record("x", "a".to_string(), list(&["b", "s"])),
        native_record("x", "b".to_string(), list(&["a"])),
        synthetic_record("s".to_string(), vec![], true),
    ];
    let (ok, log) = populate_all(&mut g, 0, &[&[Some(1), Some(2)], &[Some(0)], &[]]);
    assert!(ok);
    assert_eq!(
        log,
        list(&["resolve 0 0", "resolve 1 0", "add 1 0 0", "add 0 0 1", "resolve 0 1", "add 0 1 2", "evaluate 2"])
    );
    assert_eq!(g[0].dependencies, vec![1, 2]);
    assert_eq!(g[1].dependencies, vec![0]);
    assert!(g.iter().all(|m| m.status == ModuleStatus::Instantiated));
}

#[test]
fn graphs_with_other_modules_cannot_be_linked() {
    let mut g = vec![native_record("x", "a".to_string(), list(&["b", "c"])), source_module("b", "x")];
    let (ok, log) = populate_all(&mut g, 0, &[&[Some(1), None], &[]]);
    assert!(!ok);
    assert_eq!(log, list(&["resolve 0 0", "resolve 0 1"]));
    assert_eq!(g[0].dependencies, vec![1]);
    let (ok, _) = populate_all(&mut g, 7, &[]);
    assert!(!ok);
}

/// Evaluates module 0; `log` tells what ran, and running module `i` gives the result `results[i]`.
fn evaluate(g: &mut Vec<ModuleRecord>, results: &[Result<Option<usize>, usize>]) -> (Option<usize>, Vec<String>) {
    let mut e = Evaluation::new();
    let mut log: Vec<String> = Vec::new();
    e.enter(g, 0, false);
    loop {
        match e.advance(g) {
            EvalStep::Continue => {}
            EvalStep::RunNative(m) => {
                log.push(format!("native {}", m));
                e.native_done(g, results[m].ok().flatten());
            }
            EvalStep::RunSteps(m) => {
                log.push(format!("steps {}", m));
                e.steps_done(g, results[m].ok().flatten());
            }
            EvalStep::RunSource { module, is_async } => {
                let waits = e.frames.last().unwrap().promises.clone();
                log.push(format!("source {} {} {:?}", module, is_async, waits));
                e.source_done(g, results[module]);
            }
            EvalStep::Settle(c) => {
                let p = match c {
                    Completion::Resolved => 1000,
                    Completion::Promise(p) => p,
                    Completion::Rejected(x) => 2000 + x,
                };
                if let Some(r) = e.settle(g, Some(p)) {
                    return (r, log);
                }
            }
        }
    }
}

#[test]
fn dependencies_run_first_and_once() {
    let mut g = vec![
        with_deps(source_module("a", "x"), &[1, 2]),
        with_deps(source_module("b", "x"), &[2, 0]),
        with_deps(synthetic_record("c".to_string(), vec![], false), &[]),
    ];
    let (r, log) = evaluate(&mut g, &[Ok(None), Ok(None), Ok(None)]);
    assert_eq!(log, list(&["steps 2", "source 1 false []", "source 0 false []"]));
    assert_eq!(r, Some(1000));
    assert!(g.iter().all(|m| m.status == ModuleStatus::Evaluated));
    // A second evaluation runs nothing.
    let (r, log) = evaluate(&mut g, &[Ok(None), Ok(None), Ok(None)]);
    assert_eq!((r, log.len()), (Some(1000), 0));
}

#[test]
fn awaiting_dependencies_are_waited_for() {
    let mut g = vec![
        with_deps(source_module("a", "x"), &[1]),
        with_deps(source_module("b", "await x"), &[]),
    ];
    let (r, log) = evaluate(&mut g, &[Ok(Some(8)), Ok(Some(9))]);
    assert_eq!(log, list(&["source 1 true []", "source 0 true [9]"]));
    assert_eq!(r, Some(8));
}

#[test]
fn exceptions_reject_the_promise() {
    let mut g = vec![with_deps(source_module("a", "x"), &[1]), with_deps(source_module("b", "x"), &[])];
    let (r, log) = evaluate(&mut g, &[Err(7), Err(6)]);
    assert_eq!(log, list(&["source 1 false []", "source 0 false []"]));
    assert_eq!(r, Some(2007));
    assert_eq!(g[0].status, ModuleStatus::Errored);
    assert_eq!(g[1].status, ModuleStatus::Errored);
}

#[test]
fn native_records_are_run_by_the_engine() {
    let mut g = vec![with_deps(native_record("x", "a".to_string(), vec![]), &[1])];
    let mut e = Evaluation::new();
    e.enter(&mut g, 0, false);
    assert_eq!(e.running, vec![0]);
    assert_eq!(e.advance(&mut g), EvalStep::RunNative(0));
    e.native_done(&mut g, Some(5));
    assert!(e.running.is_empty());
    assert_eq!(e.advance(&mut g), EvalStep::Settle(Completion::Promise(5)));
    assert_eq!(e.settle(&g, Some(5)), Some(Some(5)));
    assert!(e.frames.is_empty());
    e.enter(&mut g, 3, false);
    assert!(e.frames.is_empty());
}

#[test]
fn namespaces_are_registered_before_a_run() {
    let mut a = with_deps(source_module("a.js", "import 'b';\nimport 'c';\nimport 'd';"), &[1, 2, 9]);
    a.import_specifiers.push("e".to_string());
    let g = vec![a, with_deps(source_module("", "x"), &[]), native_record("x", "c".to_string(), vec![])];
    assert_eq!(registrations(&g, 0), vec![("a.js".to_string(), 0), ("b".to_string(), 1)]);
    assert!(registrations(&g, 1).is_empty());
}

#[test]
fn scripts_run_under_their_name() {
    let mut s = Scripts::new();
    s.compiled(5, "file:///a.js".to_string(), Some(vec![1, 2]));
    s.compiled(6, "file:///b.js".to_string(), None);
    s.compiled(7, String::new(), Some(vec![]));
    s.compiled(8, String::new(), Some(vec![9]));
    assert!(matches!(s.run(5, "x"), Run::Cached { url, bytes } if url == "file:///a.js" && bytes == vec![1, 2]));
    assert!(matches!(s.run(5, "x\0"), Run::Refused));
    assert!(matches!(s.run(6, "x"), Run::Text { name: Some(n) } if n == "file:///b.js"));
    assert!(matches!(s.run(7, "x"), Run::Text { name: None }));
    assert!(matches!(s.run(8, "x"), Run::Cached { url, bytes } if url == "script" && bytes == vec![9]));
    s.compiled(6, "b\0".to_string(), None);
    assert!(matches!(s.run(6, "x"), Run::Text { name: None }));
    s.compiled(6, "b\0".to_string(), Some(vec![1]));
    assert!(matches!(s.run(6, "x"), Run::Refused));
    // An empty name and an empty cache leave what was there.
    s.compiled(5, String::new(), Some(vec![]));
    assert!(matches!(s.run(5, "x"), Run::Cached { url, .. } if url == "file:///a.js"));
}

#[test]
fn origin_names_are_read() {
    assert_eq!(origin_resource_name(NameValue::Other, "a.js"), Some("a.js".to_string()));
    assert_eq!(origin_resource_name(NameValue::Other, ""), None);
    assert_eq!(origin_resource_name(NameValue::Undefined, "undefined"), None);
    assert_eq!(origin_resource_name(NameValue::Null, "null"), None);
    assert_eq!(origin_resource_name(NameValue::Missing, "x"), None);
}

#[test]
fn code_caches_are_never_empty() {
    let c = create_code_cache(Some(vec![1, 2, 3]));
    assert_eq!((c.data, c.length, c.rejected), (Some(vec![1, 2, 3]), 3, false));
    for encoded in [None, Some(vec![])] {
        let c = create_code_cache(encoded);
        assert_eq!(c.length, 1);
        assert_eq!(c.data, Some(vec![0]));
    }
}

#[test]
fn code_caches_know_whose_bytes_they_hold() {
    let mut theirs = cached_data_new(Some(vec![1]), 1);
    assert_eq!(theirs.buffer_policy, BufferPolicy::NotOwned);
    assert!(!theirs.frees_bytes());
    theirs.rejected = true;
    assert!(theirs.accept() && !theirs.rejected);
    assert!(cached_data_from_bytes(vec![1]).frees_bytes());
    assert!(!cached_data_from_bytes(vec![]).frees_bytes());
    assert!(make_placeholder_code_cache().frees_bytes());
    assert!(!cached_data_new(None, 4).accept());
    assert!(!cached_data_new(Some(vec![]), 0).accept());
    assert!(!cached_data_new(Some(vec![1]), -1).accept());
    assert_eq!(cached_data_version_tag(Engine::JavaScriptCore), 0x5643_4a53);
    assert_eq!(cached_data_version_tag(Engine::QuickJs), 0x5145_4a53);
}

#[test]
fn dynamic_imports_ask_the_host() {
    let mut h = ImportHost::new();
    assert!(matches!(h.begin(), ImportStep::Reject(m) if m == "dynamic import: no host callback"));
    assert_eq!(h.import_target(true, true), None);
    h.set_dynamic_import_callback(4);
    h.set_dynamic_import_callback(5);
    assert!(h.hooked);
    assert!(matches!(h.begin(), ImportStep::Call(5)));
    assert_eq!(h.import_target(true, true), Some(5));
    assert_eq!(h.import_target(false, true), None);
    assert_eq!(h.import_target(true, false), None);
    assert!(matches!(h.answered(false, Some(9)), ImportStep::RejectWith(9)));
    assert!(matches!(h.answered(false, None), ImportStep::Reject(m) if m == "dynamic import: host callback returned null"));
    assert!(matches!(h.answered(true, None), ImportStep::CompileChain));
    assert!(matches!(h.chain_compiled(None), ImportStep::Reject(m) if m == "dynamic import: chain helper failed"));
    assert!(matches!(h.chain_compiled(Some(6)), ImportStep::Chain(6)));
    assert!(matches!(h.answered(true, None), ImportStep::Chain(6)));
}

#[test]
fn import_attributes_are_named() {
    assert_eq!(attribute_of(3), Some("json"));
    assert_eq!(attribute_of(2), Some("webassembly"));
    assert_eq!(attribute_of(0), None);
    assert_eq!(import_attributes(3), vec![("type".to_string(), "json".to_string())]);
    assert_eq!(import_attributes(2), vec![("type".to_string(), "webassembly".to_string())]);
    assert!(import_attributes(1).is_empty());
    assert_eq!(import_arguments(0, true), ImportArguments::Nothing);
    assert_eq!(import_arguments(1, true), ImportArguments::Specifier);
    assert_eq!(import_arguments(2, false), ImportArguments::Specifier);
    assert_eq!(import_arguments(2, true), ImportArguments::SpecifierAndReferrer);
}

#[test]
fn answers_are_told_apart() {
    assert_eq!(just_bool(true), MaybeBool::JustTrue);
    assert_eq!(just_bool(false), MaybeBool::JustFalse);
}

#[test]
fn failures_have_messages() {
    assert_eq!(message(Failure::Parse), "module parse failed");
    assert_eq!(message(Failure::Evaluation), "module evaluation failed");
    assert_eq!(message(Failure::CompileFunction), "CompileFunction failed");
    assert_eq!(message(Failure::MixedGraph), "v82jsc: native module graph has a non-ESM (synthetic) dependency");
    assert_eq!(message(Failure::Link), "v82jsc: native module link failed");
    assert_eq!(raised(Failure::Parse, Some(4)), Raised::Exception(4));
    assert_eq!(raised(Failure::Parse, None), Raised::Error(Failure::Parse));
    assert_eq!(raised(Failure::Link, Some(4)), Raised::Error(Failure::Link));
    assert_eq!(link_failure(false, false), Some(Failure::MixedGraph));
    assert_eq!(link_failure(true, false), Some(Failure::Link));
    assert_eq!(link_failure(true, true), None);
}
