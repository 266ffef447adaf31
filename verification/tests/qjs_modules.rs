//! The QuickJS side: modules.

use v8x::qjs::bytecode::bc_key;
use v8x::qjs::evaluate::{begin, load, materialize, Answer, Outcome, Search, Step};
use v8x::qjs::module::{
    clone_status, copy_records, drain_goes_on, get_identity_hash, import_meta, name_or_default,
    DefCache, ModuleImportPhase, Modules,
};
use v8x::qjs::walk::{Step as WalkStep, Walk};
use v8x::status::{MaybeBool, ModuleStatus};

fn compiled(m: &mut Modules, this: usize, name: &str, text: &str) {
    m.compile_module(this, text, name);
}

#[test]
fn modules_are_recorded_when_compiled() {
    let mut m = Modules::new();
    compiled(&mut m, 1, "a.js", "import b from 'b';\nimport source w from 'w.wasm';\nawait b;");
    let st = m.states.get(1).unwrap();
    assert_eq!(st.status, ModuleStatus::Uninstantiated);
    assert_eq!(
        st.source_text,
        "import b from 'b';\nconst w=globalThis.__v82jsc_wasm_src.get(1);\nawait b;"
    );
    assert_eq!(st.source_imports, vec![(1, "w.wasm".to_string())]);
    assert_eq!(st.import_specifiers, vec![("b".to_string(), None)]);
    assert!(st.is_async && !st.synthetic && st.module_def.is_none());
    assert_eq!(m.sources.lookup_module_source_by_name("a.js"), Some(st.source_text.clone()));
    assert_eq!(m.next_source_id, 2);
    assert_eq!(m.take_pending(), vec![(1, vec![(1, "w.wasm".to_string())])]);
    assert!(m.take_pending().is_empty());
    assert!(m.is_graph_async(1) && !m.is_graph_async(2));
    compiled(&mut m, 2, "", "x");
    assert_eq!(m.states.get(2).unwrap().source_name, name_or_default(""));
    assert!(m.take_pending().is_empty());
}

#[test]
fn requests_name_phase_and_type() {
    let mut m = Modules::new();
    compiled(&mut m, 1, "a.js", "import a from 'a.json' with { type: 'json' };\nimport source w from 'w';\nimport 'b\0';");
    let r = m.get_module_requests(1);
    let seen: Vec<(Option<&str>, bool, Option<&str>)> =
        r.iter().map(|q| (q.specifier.as_deref(), q.source_phase, q.attribute.as_deref())).collect();
    assert_eq!(seen, vec![(Some("w"), true, None), (Some("a.json"), false, Some("json")), (None, false, None)]);
    assert_eq!(r[0].get_phase(), ModuleImportPhase::Source);
    assert_eq!(r[1].get_phase(), ModuleImportPhase::Evaluation);
    assert!(r[0].get_import_attributes().is_empty());
    assert_eq!(r[1].get_import_attributes(), vec![("type".to_string(), "json".to_string(), 0)]);
    assert!(m.get_module_requests(9).is_empty());
}

#[test]
fn instantiation_moves_the_status_once() {
    let mut m = Modules::new();
    compiled(&mut m, 1, "a.js", "x");
    assert_eq!(m.get_status(1), ModuleStatus::Uninstantiated);
    assert_eq!(m.instantiated(1), MaybeBool::JustTrue);
    assert_eq!(m.get_status(1), ModuleStatus::Instantiated);
    m.with_module_state(1).unwrap().status = ModuleStatus::Evaluated;
    assert_eq!(m.instantiated(1), MaybeBool::JustTrue);
    assert_eq!(m.get_status(1), ModuleStatus::Evaluated);
    assert_eq!(m.instantiated(9), MaybeBool::JustFalse);
    assert!(m.with_module_state(9).is_none());
}

#[test]
fn marking_evaluates_every_module() {
    let mut m = Modules::new();
    compiled(&mut m, 1, "a.js", "x");
    compiled(&mut m, 2, "b.js", "x");
    assert!(!m.after_first_eval());
    m.mark_all_modules_evaluated();
    assert!(m.after_first_eval());
    assert_eq!((m.get_status(1), m.get_status(2)), (ModuleStatus::Evaluated, ModuleStatus::Evaluated));
    assert_eq!(clone_status(&ModuleStatus::Errored), ModuleStatus::Errored);
}

#[test]
fn synthetic_modules_collect_exports() {
    let mut m = Modules::new();
    m.create_synthetic_module(1, 50);
    assert!(m.is_synthetic_module(1) && !m.is_synthetic_module(2));
    assert_eq!(m.get_status(1), ModuleStatus::Instantiated);
    assert_eq!(m.set_synthetic_module_export(1, "a", 7), MaybeBool::JustTrue);
    assert_eq!(m.set_synthetic_module_export(1, "b", 8), MaybeBool::JustTrue);
    assert_eq!(m.set_synthetic_module_export(2, "a", 7), MaybeBool::JustFalse);
    assert_eq!(m.take_synthetic_exports(50), vec![("a".to_string(), 7), ("b".to_string(), 8)]);
    assert!(m.take_synthetic_exports(50).is_empty());
}

#[test]
fn drains_are_not_nested() {
    let mut m = Modules::new();
    assert!(!m.begin_drain(false));
    assert!(m.begin_drain(true));
    assert!(!m.begin_drain(true));
    m.end_drain();
    assert!(m.begin_drain(true));
    assert!(drain_goes_on(1) && !drain_goes_on(0) && !drain_goes_on(-1));
}

#[test]
fn meta_is_for_addresses() {
    assert!(import_meta(true, Some(1), "ext:core").is_none());
    assert!(import_meta(false, Some(1), "file:///a.js").is_none());
    assert!(import_meta(true, None, "file:///a.js").is_none());
    let i = import_meta(true, Some(1), "https://h/a.wasm").unwrap();
    assert_eq!((i.url.as_deref(), i.main, i.wasm), (Some("https://h/a.wasm"), false, true));
    let i = import_meta(true, Some(1), "http://h/a\0").unwrap();
    assert_eq!((i.url, i.wasm), (None, false));
}

#[test]
fn small_module_facts() {
    assert_eq!(get_identity_hash(0), 0x4d4f44);
    assert_eq!(get_identity_hash(0x4d4f44), 0);
    assert_eq!(name_or_default("m"), "m");
    assert_eq!(copy_records(&vec![(3, "x".to_string())]), vec![(3, "x".to_string())]);
    let mut d = DefCache::new();
    assert_eq!(d.get("a"), None);
    d.insert("a", 1);
    d.insert("a", 2);
    assert_eq!(d.get("a"), Some(2));
}

#[test]
fn walks_learn_every_resolution() {
    let mut m = Modules::new();
    compiled(&mut m, 1, "a.js", "import 'b';\nimport source w from 'w';\nimport 'gone';");
    compiled(&mut m, 2, "b.js", "import 'a';");
    let mut w = Walk::start(1);
    let mut log: Vec<String> = Vec::new();
    loop {
        match w.advance(&m, true) {
            WalkStep::Done => break,
            WalkStep::Continue => {}
            WalkStep::ResolveSource { module, id, specifier } => log.push(format!("source {} {} {}", module, id, specifier)),
            WalkStep::Resolve { module, specifier } => {
                log.push(format!("{} {}", module, specifier));
                let target = match specifier.as_str() {
                    "a" => Some(1),
                    "b" => Some(2),
                    _ => None,
                };
                w.resolved(&mut m, target);
            }
        }
    }
    assert_eq!(log, vec!["source 1 1 w", "1 b", "1 gone", "2 a"]);
    assert_eq!(m.resolutions.lookup_resolved_specifier("a.js", "b"), Some("b.js".to_string()));
    assert_eq!(m.resolutions.lookup_resolved_specifier("b.js", "a"), Some("a.js".to_string()));
    assert_eq!(m.resolutions.lookup_resolved_specifier("a.js", "gone"), None);
    assert_eq!(w.visited, vec![1, 2]);
}

#[test]
fn fresh_modules_are_read_or_compiled() {
    let mut m = Modules::new();
    compiled(&mut m, 1, "a.js", "x");
    let (e, step) = begin(&mut m, 1);
    assert_eq!(step, Step::ReadBytecode(bc_key("x")));
    assert_eq!(m.get_status(1), ModuleStatus::Evaluated);
    assert_eq!(e.read(&mut m, None).0, Step::Compile);
    assert_eq!(e.compiled(&mut m, Some(40)).0, Step::RunModule(40));
    assert_eq!(m.states.get(1).unwrap().module_def, Some(40));
    assert_eq!(e.ran(&mut m, Outcome::Pending(5)), Answer::Value(5));
    assert!(!m.after_first_eval());
    assert_eq!(e.ran(&mut m, Outcome::Threw), Answer::Fresh);
    assert!(m.after_first_eval());
    assert_eq!(e.compiled(&mut m, None).0, Step::RunSource);
    assert_eq!(e.read(&mut m, Some(41)).0, Step::RunModule(41));
}

#[test]
fn modules_that_ran_do_not_run_again() {
    let mut m = Modules::new();
    compiled(&mut m, 1, "a.js", "x");
    m.record_def(1, 40);
    let (e, step) = begin(&mut m, 1);
    assert!(!matches!(step, Step::RunSource | Step::Compile | Step::ReadBytecode(_)));
    assert_eq!(e.inspected(&mut m, 40, true, false), Step::RunAgain(40));
    assert_eq!(e.inspected(&mut m, 40, false, true), Step::Done(Answer::Resolved));
    assert_eq!(e.ran_again(Outcome::Threw), Answer::Resolved);
    assert_eq!(e.ran_again(Outcome::Pending(3)), Answer::Value(3));
    assert_eq!(e.ran_again(Outcome::Other(4)), Answer::Value(4));
}

#[test]
fn modules_without_text_run_nothing() {
    let mut m = Modules::new();
    compiled(&mut m, 1, "a.js", "");
    assert_eq!(begin(&mut m, 1).1, Step::RunNothing);
    assert_eq!(begin(&mut m, 9).1, Step::RunNothing);
    compiled(&mut m, 2, "b\0.js", "x");
    assert_eq!(begin(&mut m, 2).1, Step::RunNothing);
}

#[test]
fn definitions_are_found_before_they_are_made() {
    let mut m = Modules::new();
    assert_eq!(materialize(&m, 1).1, Search::Done(None));
    compiled(&mut m, 1, "a.js", "x");
    let (t, step) = materialize(&m, 1);
    assert_eq!(step, Search::LookUp);
    assert_eq!(t.looked_up(&mut m, Some(7), true, false), Search::Done(Some(7)));
    assert_eq!(m.defs.get("a.js"), Some(7));
    assert_eq!(t.looked_up(&mut m, Some(7), false, false), Search::Run(7));
    assert_eq!(t.looked_up(&mut m, None, false, false), Search::ReadBytecode(bc_key("x")));
    assert!(matches!(t.read(&mut m, None), (Search::Compile, None)));
    assert!(matches!(t.read(&mut m, Some(8)), (Search::Run(8), None)));
    assert!(matches!(t.compiled(&mut m, None), (Search::Done(None), None)));
    assert!(matches!(t.compiled(&mut m, Some(9)), (Search::Run(9), None)));
    assert_eq!(m.states.get(1).unwrap().module_def, Some(9));
    // What is made here gets its `import.meta` before it runs.
    m.set_import_meta_callback();
    compiled(&mut m, 2, "file:///b.js", "y");
    let (t, _) = materialize(&m, 2);
    for (step, meta) in [t.read(&mut m, Some(8)), t.compiled(&mut m, Some(8))] {
        assert_eq!(step, Search::Run(8));
        assert_eq!(meta.unwrap().url, Some("file:///b.js".to_string()));
    }
}

#[test]
fn modules_run_once() {
    let mut m = Modules::new();
    compiled(&mut m, 1, "a.js", "x");
    let (e, step) = begin(&mut m, 1);
    assert_eq!(step, Step::ReadBytecode(bc_key("x")));
    assert_eq!(e.read(&mut m, None).0, Step::Compile);
    assert_eq!(e.compiled(&mut m, Some(40)).0, Step::RunModule(40));
    assert_eq!(e.ran(&mut m, Outcome::Other(0)), Answer::Fresh);
    // What is run here gets its `import.meta` first.
    m.set_import_meta_callback();
    compiled(&mut m, 2, "file:///b.js", "y");
    let (e, _) = begin(&mut m, 2);
    assert!(e.read(&mut m, None).1.is_none());
    for (step, meta) in [e.read(&mut m, Some(8)), e.compiled(&mut m, Some(8))] {
        assert_eq!(step, Step::RunModule(8));
        assert_eq!(meta.unwrap().url, Some("file:///b.js".to_string()));
    }
    for _ in 0..2 {
        assert_eq!(begin(&mut m, 1).1, Step::Done(Answer::Resolved));
        assert_eq!(m.states.get(1).unwrap().status, ModuleStatus::Evaluated);
        assert_eq!(m.states.get(1).unwrap().module_def, Some(40));
    }
}

#[test]
fn loaded_modules_are_found_again() {
    let mut m = Modules::new();
    m.set_import_meta_callback();
    assert_eq!(load(&m, "file:///a.js").1, Search::Done(None));
    m.sources.register_module_source("file:///a.js", "x");
    let (l, step) = load(&m, "file:///a.js");
    assert_eq!(step, Search::LookUp);
    assert_eq!(l.looked_up(&mut m, None), Search::ReadBytecode(bc_key("x")));
    let (step, meta) = l.read(&mut m, None);
    assert_eq!(step, Search::Compile);
    assert!(meta.is_none());
    let (step, meta) = l.compiled(&mut m, Some(5));
    assert_eq!(step, Search::Done(Some(5)));
    assert_eq!(meta.unwrap().url.as_deref(), Some("file:///a.js"));
    assert_eq!(l.looked_up(&mut m, Some(5)), Search::Done(Some(5)));
    // Evaluating the module finds the definition.
    m.compile_module(1, "x", "file:///a.js");
    assert_eq!(begin(&mut m, 1).1, Step::Inspect(5));
}
