//! The JavaScriptCore side: source text.

use v8x::jsc::comments::{strip_comments, strip_js_comments};
use v8x::jsc::dynamic_import::{redirect, rewrite_dynamic_import_calls};
use v8x::jsc::rewrite::{between, extract_attr_type, extract_specifier, rewrite_es_module};
use v8x::jsc::statements::{
    join_module_statements, join_statements, strip_leading, strip_leading_block_comments,
};
use v8x::jsc::top_level_await::has_top_level_await;
use v8x::jsc::wrap::{
    compile_function_source, eval_module_source, function_source, install_reexport_getters,
    module_source, unsupported_syntax,
};

fn chars(s: &str) -> Vec<char> {
    s.chars().collect()
}

fn text(c: &[char]) -> String {
    c.iter().collect()
}

fn list(v: &[&str]) -> Vec<String> {
    v.iter().map(|s| s.to_string()).collect()
}

#[test]
fn comments_are_dropped() {
    assert_eq!(strip_js_comments("a // b\nc"), "a \nc");
    assert_eq!(strip_js_comments("a /* b\n */ c"), "a  c");
    assert_eq!(strip_js_comments("a // b"), "a ");
    assert_eq!(strip_js_comments("/* open"), "");
    assert_eq!(strip_js_comments("x/*/y"), "x");
    assert_eq!(strip_js_comments(""), "");
    assert_eq!(text(&strip_comments(&chars("1 /* é */ + 2"))), "1  + 2");
}

#[test]
fn dropping_comments_twice_is_dropping_them_once() {
    for s in ["a // b\nc", "x = /[/*]/ /* y */ / 2", "a /**// b", "'//' /* 'x */ `/*`", "a / b / c // d", "/ /", "\"open /* x */"] {
        let once = strip_js_comments(s);
        assert_eq!(strip_js_comments(&once), once, "{}", s);
        // What is left stands in the text, in its order.
        let mut left = once.chars().peekable();
        for c in s.chars() {
            if left.peek() == Some(&c) {
                left.next();
            }
        }
        assert_eq!(left.next(), None, "{}", s);
    }
}

#[test]
fn literals_keep_what_looks_like_a_comment() {
    assert_eq!(strip_js_comments("'//' + \"/*\" // x"), "'//' + \"/*\" ");
    assert_eq!(strip_js_comments("`// ${a} /* */` // x"), "`// ${a} /* */` ");
    assert_eq!(strip_js_comments(r#"'it\'s // in' // out"#), r#"'it\'s // in' "#);
    assert_eq!(strip_js_comments("'open // x"), "'open // x");
    assert_eq!(strip_js_comments("'é\\é//' // out"), "'é\\é//' ");
}

#[test]
fn regular_expressions_are_told_from_divisions() {
    assert_eq!(strip_js_comments("x = /[/]'/ // y"), "x = /[/]'/ ");
    assert_eq!(strip_js_comments("/'/ // y"), "/'/ ");
    assert_eq!(strip_js_comments("a / b // 'c"), "a / b ");
    assert_eq!(strip_js_comments("(/\\//) // y"), "(/\\//) ");
    assert_eq!(strip_js_comments("f() / '//' / 2"), "f() / '//' / 2");
}

#[test]
fn text_without_slash_is_kept() {
    for s in ["", "a + b", "'x\\", "`${a}`\nb", "é \"q"] {
        assert_eq!(strip_js_comments(s), s);
    }
}

#[test]
fn stripping_never_lengthens() {
    for s in ["/", "//", "/*", "/**/", "a/*b*/c//d\ne", "x=/a/ /b/ /*c*/"] {
        assert!(strip_js_comments(s).len() <= s.len());
    }
}

#[test]
fn leading_block_comments_are_dropped() {
    assert_eq!(strip_leading_block_comments("  /* a */ /* b */ c"), "c");
    assert_eq!(strip_leading_block_comments(" /* open"), "/* open");
    assert_eq!(strip_leading_block_comments("/*/ a"), "/*/ a");
    assert_eq!(strip_leading_block_comments("\u{a0}x /* y */"), "x /* y */");
    assert_eq!(text(strip_leading(&chars("/**/"))), "");
}

#[test]
fn name_lists_are_joined_to_one_line() {
    assert_eq!(
        join_module_statements("import {\n  a,\n  b\n} from \"m\";\nx();"),
        list(&["import { a, b } from \"m\";", "x();"])
    );
    assert_eq!(
        join_module_statements("import d, {\n a }\n  from \"m\";"),
        list(&["import d, { a } from \"m\";"])
    );
    assert_eq!(
        join_module_statements("export {\n a,\n b\n};\nfrom \"m\""),
        list(&["export { a, b };", "from \"m\""])
    );
    assert_eq!(join_module_statements("export {\n a"), list(&["export { a"]));
}

#[test]
fn declarations_are_not_joined() {
    let src = "export class C {\n  m() {}\n}\n  import { a } from 'x'\r\ny";
    assert_eq!(
        join_module_statements(src),
        list(&["export class C {", "  m() {}", "}", "  import { a } from 'x'", "y"])
    );
    let rows = join_statements(&chars("a\n\nb\n"));
    let rows: Vec<String> = rows.iter().map(|r| text(r)).collect();
    assert_eq!(rows, list(&["a", "", "b"]));
}

#[test]
fn what_stands_in_brackets_is_found() {
    assert_eq!(between("a { b } c }", '{', '}'), Some(" b ".to_string()));
    assert_eq!(between("} {", '{', '}'), None);
    assert_eq!(between("", '{', '}'), None);
}

#[test]
fn specifiers_are_read() {
    assert_eq!(extract_specifier("import a from \"./m.js\";"), Some("./m.js".to_string()));
    assert_eq!(extract_specifier("import './side.js'"), Some("./side.js".to_string()));
    assert_eq!(extract_specifier("import \"x\" from 'y'"), Some("y".to_string()));
    assert_eq!(extract_specifier("import a from \"open"), None);
    assert_eq!(extract_specifier("import a"), None);
    assert_eq!(extract_specifier("import a from \"it's\""), Some("it's".to_string()));
}

#[test]
fn attribute_types_are_read() {
    let json = Some("json".to_string());
    assert_eq!(extract_attr_type("import a from 'a' with { type: 'json' }"), json);
    assert_eq!(extract_attr_type("import a from 'a' with{type:\"json\"}"), json);
    assert_eq!(extract_attr_type("import a from 'a' assert { type: \"json\" };"), json);
    assert_eq!(extract_attr_type("import a from 'a' assert{\"type\": \"json\"};"), Some(": ".to_string()));
    assert_eq!(extract_attr_type("import a from 'a' with { kind: 'json' }"), None);
    assert_eq!(extract_attr_type("import a from 'type'"), None);
    assert_eq!(extract_attr_type("import a from 'a' with { type: json }"), None);
}

#[test]
fn imports_become_constants() {
    let m = rewrite_es_module("import d, { a, b as c } from \"m\";\nimport * as ns from 'n';\nimport 'side';\nx(d, a, c, ns);").unwrap();
    assert_eq!(
        m.body,
        "const d = ((globalThis.__v8jsc_modules||{})[\"m\"]||{}).default;\n\
         const { a, b: c } = ((globalThis.__v8jsc_modules||{})[\"m\"]||{});\n\
         const ns = ((globalThis.__v8jsc_modules||{})[\"n\"]||{});\n\
         x(d, a, c, ns);\n"
    );
    assert_eq!(m.imports, list(&["m", "n", "side"]));
    assert!(m.export_names.is_empty());
    assert!(m.reexports.is_empty());
    assert!(!m.is_async);
}

#[test]
fn default_imports_alone_become_constants() {
    let m = rewrite_es_module("import d from \"a\\\"b\";").unwrap();
    // The specifier ends at the first quote of its kind, whatever stands before it.
    assert_eq!(m.imports, list(&["a\\"]));
    assert_eq!(
        m.body,
        "const d = ((globalThis.__v8jsc_modules||{})[\"a\\\\\"]||{}).default;\n"
    );
}

#[test]
fn exports_become_assignments() {
    let m = rewrite_es_module(
        "export const a = 1, z = 2;\nexport function f() {}\nexport class C {}\nexport async function g() {}\nconst q = 1;\nexport { q, q as r };\nexport default q + 1;",
    )
    .unwrap();
    assert_eq!(
        m.body,
        "const a = 1, z = 2;\nfunction f() {}\nclass C {}\nasync function g() {}\nconst q = 1;\n\
         const __v8jsc_default = q + 1;\n\
         __ns[\"a\"] = a;\n__ns[\"f\"] = f;\n__ns[\"C\"] = C;\n__ns[\"g\"] = g;\n\
         __ns[\"q\"] = q;\n__ns[\"r\"] = q;\n__ns[\"default\"] = __v8jsc_default;\n"
    );
    assert_eq!(m.export_names, list(&["a", "f", "C", "g", "q", "r", "default"]));
    assert!(m.imports.is_empty());
}

#[test]
fn destructuring_exports_name_each_binding() {
    let m = rewrite_es_module("export const { a, b: c, d = 1 } = o;").unwrap();
    assert_eq!(
        m.body,
        "const { a, b: c, d = 1 } = o;\n__ns[\"a\"] = a;\n__ns[\"c\"] = c;\n__ns[\"d\"] = d;\n"
    );
    assert_eq!(m.export_names, list(&["a", "c", "d"]));
}

#[test]
fn names_hold_letters_of_any_script() {
    // `é` is a letter, so the name goes on behind it.
    let m = rewrite_es_module("export let é1$_ = 1").unwrap();
    assert_eq!(m.export_names, list(&["é1$_"]));
    let m = rewrite_es_module("export let a·b = 1").unwrap();
    assert_eq!(m.export_names, list(&["a"]));
}

#[test]
fn reexports_are_live() {
    let m = rewrite_es_module(
        "import d, { a as b } from 'm';\nimport * as ns from 'n';\nexport { d, b as e, ns };\nexport { x, y as z } from 'o';",
    )
    .unwrap();
    let triple = |a: &str, b: &str, c: &str| (a.to_string(), b.to_string(), c.to_string());
    assert_eq!(
        m.reexports,
        vec![
            triple("d", "m", "default"),
            triple("e", "m", "a"),
            triple("ns", "n", "*"),
            triple("x", "o", "x"),
            triple("z", "o", "y"),
        ]
    );
    assert_eq!(m.export_names, list(&["d", "e", "ns", "x", "z"]));
    assert_eq!(m.imports, list(&["m", "n", "o"]));
    // Every live re-export is an export, and comes from an import.
    for (exported, spec, _) in &m.reexports {
        assert!(m.export_names.contains(exported));
        assert!(m.imports.contains(spec));
    }
}

#[test]
fn star_exports_come_last() {
    let m = rewrite_es_module("export * from \"m\";\nexport * as ns from \"n\";\nexport const a = 1;").unwrap();
    assert_eq!(
        m.body,
        "const a = 1;\n__ns[\"a\"] = a;\n\
         {const __se=((globalThis.__v8jsc_modules||{})[\"m\"]||{});for(const __k of Object.keys(__se)){\
         if(__k!==\"default\"&&!Object.prototype.hasOwnProperty.call(__ns,__k)){\
         Object.defineProperty(__ns,__k,{get:((k)=>()=>__se[k])(__k),\
         enumerable:true,configurable:true});}}}\n\
         __ns[\"ns\"] = ((globalThis.__v8jsc_modules||{})[\"n\"]||{});\n"
    );
    assert_eq!(m.export_names, list(&["ns", "a"]));
    assert_eq!(m.imports, list(&["m", "n"]));
}

#[test]
fn star_export_of_nothing_is_refused() {
    assert!(rewrite_es_module("export * from nowhere;").is_none());
    assert!(rewrite_es_module("export *").is_none());
    assert!(rewrite_es_module("export * from '';").is_none());
}

#[test]
fn meta_is_renamed() {
    let m = rewrite_es_module("f(import.meta.url); // import.meta").unwrap();
    assert_eq!(m.body, "f(__v8jsc_meta.url); \n");
}

#[test]
fn plain_modules_are_kept() {
    let m = rewrite_es_module("const a = 1;\nf(a);").unwrap();
    assert_eq!(m.body, "const a = 1;\nf(a);\n");
    assert!(m.imports.is_empty() && m.export_names.is_empty() && m.reexports.is_empty());
    assert_eq!(rewrite_es_module("").unwrap().body, "");
}

#[test]
fn specifiers_are_quoted_for_the_script() {
    let m = rewrite_es_module("import a from 'x\"y\\n';").unwrap();
    assert_eq!(
        m.body,
        "const a = ((globalThis.__v8jsc_modules||{})[\"x\\\"y\\\\n\"]||{}).default;\n"
    );
}

#[test]
fn top_level_awaits_are_seen() {
    assert!(has_top_level_await("await f();"));
    assert!(has_top_level_await("const a = await f();"));
    assert!(has_top_level_await("function g() { }\nawait 1"));
    assert!(rewrite_es_module("await f();").unwrap().is_async);
}

#[test]
fn other_awaits_are_passed_over() {
    assert!(!has_top_level_await("async function f() { await g(); }"));
    assert!(!has_top_level_await("const f = async () => { await g(); };"));
    assert!(!has_top_level_await("if (x) { await g(); }"));
    assert!(!has_top_level_await("// await\n/* await */ 'await' \"await\" `await`"));
    assert!(!has_top_level_await("x.await(); y .\n await"));
    assert!(!has_top_level_await("awaited; $await; await1"));
    assert!(!has_top_level_await("class C { async m() { for await (const x of y) {} } }"));
    assert!(!has_top_level_await("no such word"));
    assert!(!has_top_level_await(""));
    // A blank of another script does not stand between a dot and its name.
    assert!(has_top_level_await("x.\u{a0}await"));
}

#[test]
fn dynamic_imports_go_through_the_helper() {
    assert_eq!(rewrite_dynamic_import_calls("import('a')"), "__v82jsc_dynImport('a')");
    assert_eq!(rewrite_dynamic_import_calls("x=import \t('a')"), "x=__v82jsc_dynImport('a')");
    assert_eq!(rewrite_dynamic_import_calls("Reimport('a')"), "Reimport('a')");
    assert_eq!(rewrite_dynamic_import_calls("import.meta; import a from 'b'"), "import.meta; import a from 'b'");
    assert_eq!(rewrite_dynamic_import_calls("import\n('a')"), "__v82jsc_dynImport('a')");
    assert_eq!(rewrite_dynamic_import_calls("import \r\n\u{a0}('a')"), "__v82jsc_dynImport('a')");
    assert_eq!(rewrite_dynamic_import_calls("import\na ('a')"), "import\na ('a')");
    assert_eq!(text(&redirect(&chars("éimport(é)"))), "é__v82jsc_dynImport(é)");
}

#[test]
fn no_dynamic_import_is_left() {
    for s in ["import(import(a))", "x;import  (y)import(z)", "if(import('a'))import('b')"] {
        let once = rewrite_dynamic_import_calls(s);
        assert_ne!(once, s);
        assert_eq!(rewrite_dynamic_import_calls(&once), once);
    }
}

#[test]
fn imports_are_listed_in_order() {
    let src = "import a from 'one';\nexport * from 'two';\nexport { b } from 'three';\nexport { a };\nimport 'four';";
    assert_eq!(rewrite_es_module(src).unwrap().imports, list(&["one", "two", "three", "four"]));
}

#[test]
fn text_without_import_is_kept() {
    for s in ["", "imp ort('a')", "é(1)", "Import('a')"] {
        assert_eq!(rewrite_dynamic_import_calls(s), s);
    }
}

#[test]
fn functions_are_wrapped() {
    assert_eq!(
        compile_function_source("#!/usr/bin/env node\nreturn import(x);", &list(&["a", "b"]), "file:///\"m\".js"),
        Some(
            "(function(a,b) {\nconst __v82jsc_dynImport=(s,o)=>globalThis.__v82jsc_dynamicImport(s,\"file:///\\\"m\\\".js\",o);\nreturn __v82jsc_dynImport(x);\n})"
                .to_string()
        )
    );
    assert_eq!(
        function_source("#! no more", &[], &chars("N")),
        Some(
            "(function() {\nconst __v82jsc_dynImport=(s,o)=>globalThis.__v82jsc_dynamicImport(s,N,o);\n\n})"
                .to_string()
        )
    );
    assert_eq!(compile_function_source("a\0b", &[], "m"), None);
    assert_eq!(compile_function_source("a", &list(&["x\0"]), "m"), None);
    // The quotes write a NUL as an escape.
    assert!(compile_function_source("a", &[], "m\0").unwrap().contains("\"m\\0\""));
}

#[test]
fn modules_are_wrapped() {
    let helper = "const __v82jsc_dynImport=(s,o)=>globalThis.__v82jsc_dynamicImport(s,\"u\",o);\n";
    assert_eq!(
        eval_module_source("f();", false, 2, "u"),
        Some(format!("(function(__ns, __v8jsc_meta, __deps){{\n{}f();\n}})", helper))
    );
    assert_eq!(
        eval_module_source("f();", true, 2, "u"),
        Some(format!(
            "(async function(__ns, __v8jsc_meta, __deps){{\n{}await Promise.all(__deps);\nf();\n}})",
            helper
        ))
    );
    assert_eq!(
        eval_module_source("f();", true, 0, "u"),
        Some(format!("(async function(__ns, __v8jsc_meta, __deps){{\n{}f();\n}})", helper))
    );
    assert_eq!(module_source("\0", false, false, &chars("u")), None);
}

#[test]
fn reexport_getters_are_written() {
    assert_eq!(install_reexport_getters(&[]), None);
    let entry = |a: &str, b: &str, c: &str| (a.to_string(), b.to_string(), c.to_string());
    assert_eq!(
        install_reexport_getters(&[entry("a", "m", "b"), entry("ns", "m", "*")]),
        Some(
            "(function(__ns){\n\
             Object.defineProperty(__ns, \"a\", {configurable:true, enumerable:true, get:function(){ return ((globalThis.__v8jsc_modules||{})[\"m\"]||{})[\"b\"]; }});\n\
             Object.defineProperty(__ns, \"ns\", {configurable:true, enumerable:true, get:function(){ return ((globalThis.__v8jsc_modules||{})[\"m\"]||{}); }});\n\
             })"
                .to_string()
        )
    );
}

#[test]
fn refused_modules_are_named() {
    assert_eq!(unsupported_syntax("m.js"), "v82jsc: unsupported ES module syntax in m.js");
    assert_eq!(unsupported_syntax(""), "v82jsc: unsupported ES module syntax in <module>");
}
