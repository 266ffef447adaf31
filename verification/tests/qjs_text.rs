//! The QuickJS side: source text, specifiers and bytecode files.

use std::collections::hash_map::DefaultHasher;
use std::hash::{Hash, Hasher};
use v8x::qjs::bytecode::{bc_key, bc_load, bc_path, BC_MAGIC};
use v8x::qjs::imports::{is_word_at, parse_import_specifiers};
use v8x::qjs::lexer::{
    are_at, ident_byte, skip_comment_bytes, skip_line_bytes, skip_string, skip_template, white_byte,
};
use v8x::qjs::top_level_await::has_top_level_await;
use v8x::qjs::request::{
    bare_import_well_formed, extract_attr_type, extract_specifier, find_from_specifier_start,
    has_balanced_quotes, request_of,
};
use v8x::qjs::resolve::{
    builtin_name, normalize_specifier, resolve_relative_specifier, ModuleSources, Resolutions,
};
use v8x::qjs::source_phase::{next_src_phase_id, parse_source_phase_at, rewrite_source_phase};
use v8x::qjs::wrap::{
    compile_function_name, compile_function_source, error_message, CompileFunctionError,
};

fn requests(src: &str) -> Vec<(String, Option<String>)> {
    parse_import_specifiers(src)
}

fn plain(names: &[&str]) -> Vec<(String, Option<String>)> {
    names.iter().map(|s| (s.to_string(), None)).collect()
}

#[test]
fn strings_are_skipped() {
    assert_eq!(skip_string(b"\"ab\" c", 0, b'"'), 4);
    assert_eq!(skip_string(b"'a\\'b' c", 0, b'\''), 6);
    assert_eq!(skip_string(b"'a\nb'", 0, b'\''), 2);
    assert_eq!(skip_string(b"'ab", 0, b'\''), 3);
    assert_eq!(skip_string(b"'ab\\", 0, b'\''), 4);
}

#[test]
fn templates_are_skipped() {
    assert_eq!(skip_template(b"`ab` c", 0), 4);
    assert_eq!(skip_template(b"`a${`x${1}`}b` c", 0), 14);
    assert_eq!(skip_template(b"`a${ {b:'}'} }` c", 0), 15);
    assert_eq!(skip_template(b"`a\\`b` c", 0), 6);
    assert_eq!(skip_template(b"`a${", 0), 4);
}

#[test]
fn comments_end_where_they_should() {
    assert_eq!(skip_line_bytes(b"// a\nb", 2), 4);
    assert_eq!(skip_line_bytes(b"// a", 2), 4);
    assert_eq!(skip_comment_bytes(b"/* a */b", 2), 7);
    assert_eq!(skip_comment_bytes(b"/* a", 2), 4);
    assert!(white_byte(b' ') && white_byte(0x0c) && !white_byte(0x0b));
    assert!(ident_byte(b'$') && ident_byte(b'_') && ident_byte(b'7') && !ident_byte(b'-'));
    assert!(are_at(b"a/*", 1, b'/', b'*') && !are_at(b"a/", 1, b'/', b'*'));
    assert!(is_word_at(b"an import", "import", 3) && !is_word_at(b"an impor", "import", 3));
}

#[test]
fn imports_of_every_form_are_found() {
    let src = "import a from \"a\";\n\
               import { b } from 'b'\n\
               import * as c from \"c\";\n\
               import \"d\";\n\
               import{e}from\"e\";\n\
               export * from \"f\";\n\
               export { g } from \"g\";\n\
               import {\n  h,\n} from \"h\";\n";
    assert_eq!(requests(src), plain(&["a", "b", "c", "d", "e", "f", "g", "h"]));
}

#[test]
fn imports_are_found_one_after_another() {
    let statements = [
        ("import a from \"a\"", "a"),
        ("import {\n  b,\n  c\n} from 'b'", "b"),
        ("export * from \"c/é\"", "c/é"),
        ("import 'd'", "d"),
        ("import{e}from\"e\"", "e"),
        ("export { from } from\n'f'", "f"),
    ];
    for end in [";", "\n"] {
        let mut text = String::new();
        let mut names: Vec<&str> = Vec::new();
        for (statement, name) in statements {
            text.push_str(statement);
            text.push_str(end);
            names.push(name);
            assert_eq!(requests(statement), plain(&[name]));
        }
        assert_eq!(requests(&text), plain(&names));
    }
    // The word `from` in a literal or a comment is no keyword.
    assert_eq!(requests("import a from \"x-from\";"), plain(&["x-from"]));
    assert_eq!(requests("import x from \"./from\""), plain(&["./from"]));
    assert_eq!(requests("import x from './a from' // from 'b'\nimport 'c'"), plain(&["./a from", "c"]));
}

#[test]
fn literals_and_comments_end_no_statement() {
    assert_eq!(requests("import a from \"a;b\"; import 'c'"), plain(&["a;b", "c"]));
    assert_eq!(
        requests("import a from 'data:text/javascript;base64,QQ==';\nimport {b} from '}{';export * from 'd'"),
        plain(&["data:text/javascript;base64,QQ==", "}{", "d"])
    );
    assert_eq!(requests("import /* ; don't */ a from \"b\"\nimport 'c'"), plain(&["b", "c"]));
    assert_eq!(requests("import { \"a b\" as c }\nfrom \"d\""), plain(&["d"]));
}

#[test]
fn any_white_space_follows_import() {
    assert_eq!(requests("import\ta from 'a'\nimport\n{ b } from 'b'\nimport\n'c'"), plain(&["a", "b", "c"]));
    assert!(requests("import\t('a'); import\n('b')").is_empty());
    assert_eq!(requests("x;\u{c}import 'a'"), plain(&["a"]));
}

#[test]
fn export_lists_without_from_end_at_their_brace() {
    assert_eq!(requests("export{a as\"b\"}\nimport\"z\""), plain(&["z"]));
    assert_eq!(requests("export { a }\nimport 'b'\nimport 'c'"), plain(&["b", "c"]));
    assert_eq!(requests("export { a /* } */, '}' as b } /* c */\nimport d from 'd'"), plain(&["d"]));
    assert_eq!(requests("export { a } /* c */ from 'b';export { a }import 'c'"), plain(&["b", "c"]));
    assert_eq!(requests("export { from }\nfrom\n'x'"), plain(&["x"]));
    assert!(requests("export { a").is_empty());
}

#[test]
fn dynamic_imports_end_at_their_keyword() {
    assert_eq!(
        requests("import('a').then(() => { f('x') })\nexport * from 'y'\nimport (b)\nimport 'z'"),
        plain(&["y", "z"])
    );
}

#[test]
fn imports_are_found_behind_other_code() {
    let code = [
        "\n\n  \t",
        "// import 'x'\n",
        "/* import 'x' */",
        "/*! license */ 'use strict';\n",
        "export const a = `import 'x' ${b}`; f(import.meta);\n",
        "export default function () { return import('x') }\n",
        "export { a, b };\n",
        "\u{a0}\n",
    ];
    for before in code {
        for statement in ["import 'm'", "import m from 'm'", "export { a } from 'm'", "export * from 'm'"] {
            assert_eq!(requests(&format!("{before}{statement}")), plain(&["m"]), "{before}{statement}");
            assert_eq!(
                requests(&format!("{statement};{before}{statement}")),
                plain(&["m", "m"]),
                "{before}{statement}"
            );
        }
    }
}

#[test]
fn comments_may_stand_in_and_before_clauses() {
    assert_eq!(extract_attr_type("import x from\"a\"/**/ with{type:\"b\"}"), Some("b".to_string()));
    assert_eq!(
        extract_attr_type("import x from 'a' // c\n with { /* d */ type /* e */ : /* f */ 'b' }"),
        Some("b".to_string())
    );
    assert_eq!(
        requests("import 'a' // c\nimport 'b' /* c */ with { type: 'json' };import 'c' /* d */;"),
        vec![
            ("a".to_string(), None),
            ("b".to_string(), Some("json".to_string())),
            ("c".to_string(), None),
        ]
    );
    assert!(!bare_import_well_formed("import 'a' // c"));
    assert_eq!(extract_attr_type("import x from \"a\\\"b\" with { type: \"json\" }"), Some("json".to_string()));
}

#[test]
fn comments_may_follow_the_keyword() {
    assert_eq!(
        requests("import/* x */a from 'a'\nimport // y\n'b'\nexport /* z */ { c } from 'c'\nexport/**/* from 'd'"),
        plain(&["a", "b", "c", "d"])
    );
    assert!(requests("import/* x */('a'); export /* x */ const y = 'b'").is_empty());
}

#[test]
fn import_types_are_found() {
    assert_eq!(
        requests("import a from \"./a.json\" with { type: \"json\" };\nimport 'b' with {type: 'css'}"),
        vec![
            ("./a.json".to_string(), Some("json".to_string())),
            ("b".to_string(), Some("css".to_string())),
        ]
    );
}

#[test]
fn what_only_looks_like_an_import_is_passed_over() {
    assert!(requests("import(\"a\"); import (\"b\");").is_empty());
    assert!(requests("// import \"a\";\n/* import \"b\"; */").is_empty());
    assert!(requests("const s = \"import 'a'\"; const t = `\nimport 'b';\n`;").is_empty());
    assert!(requests("reimport \"a\"; foo.export * from \"b\"").is_empty());
    assert!(requests("export function f() { return x[\".node\"]; }").is_empty());
    assert!(requests("throw Error(x + import 'a'.y)").is_empty());
    assert!(requests("").is_empty());
    assert!(requests("import ''").is_empty());
    assert!(requests("no keyword here").is_empty());
}

#[test]
fn imports_behind_other_statements_are_found() {
    assert_eq!(requests("f();import \"a\";{import \"b\"}"), plain(&["a"]));
    assert_eq!(requests("x\n\timport é from \"ü\"\n"), plain(&["ü"]));
    assert_eq!(requests("import a from\n\"b\";"), plain(&["b"]));
}

#[test]
fn specifiers_follow_the_last_from() {
    assert_eq!(find_from_specifier_start("import a from \"b\""), Some(13));
    assert_eq!(find_from_specifier_start("import { from } from 'b'"), Some(20));
    assert_eq!(find_from_specifier_start("é}from\"x\""), Some(7));
    assert_eq!(find_from_specifier_start("import \"b\""), None);
    assert_eq!(find_from_specifier_start("xfrom \"b\" from_ \"c\""), None);
    assert_eq!(extract_specifier("import a from \"b\" with { type: \"json\" }"), Some("b".to_string()));
    assert_eq!(extract_specifier("import'x'"), Some("x".to_string()));
    assert_eq!(extract_specifier("import a from \"b"), None);
    assert_eq!(extract_attr_type("import a from \"b\" assert{type:'json'}"), Some("json".to_string()));
    assert_eq!(extract_attr_type("import a from \"b\""), None);
    assert_eq!(find_from_specifier_start("import x from \"./from\""), Some(13));
    assert_eq!(extract_specifier("import x from \"./from\""), Some("./from".to_string()));
    assert_eq!(extract_attr_type("import x from \"a with type 'b'\""), None);
    assert_eq!(extract_attr_type("import \"a with type 'b'\""), None);
    assert_eq!(extract_attr_type("import x from \"b\" without { type: 'json' }"), None);
    assert_eq!(extract_attr_type("import x from 'b' with { 'type' : 'css', }"), Some("css".to_string()));
    assert_eq!(extract_attr_type("import x from 'b' with { mytype: 'a', type: 'c' }"), Some("c".to_string()));
    assert_eq!(extract_attr_type("import x from 'b' with { a: \"type: 'd'\" }"), None);
}

#[test]
fn bare_imports_end_properly() {
    for ok in ["import \"a\"", "import 'a';", "import 'a' \r\n", "import \"x\"\rfoo", "import 'a'\u{b}\u{a0};", "import \"a\" with { }", "import'a'assert"] {
        assert!(bare_import_well_formed(ok), "{}", ok);
    }
    for bad in ["import 'a'.b", "import 'a' x", "import 'a\n'", "import 'a", "import a", "export 'a'", "import 'a\\'", "import \"x\" without", "import 'x' assertion"] {
        assert!(!bare_import_well_formed(bad), "{}", bad);
    }
    assert!(has_balanced_quotes("'a' \"b\""));
    assert!(!has_balanced_quotes("no quotes"));
    assert!(!has_balanced_quotes("it's"));
    assert!(has_balanced_quotes("import \"a\\\"b\""));
    assert!(!has_balanced_quotes("\"a\\\""));
    assert!(!has_balanced_quotes("\\\"a\\\""));
    assert_eq!(request_of("import \"a\"", true), Some(("a".to_string(), None)));
    assert_eq!(request_of("export \"a\"", false), None);
    assert_eq!(request_of("import(\"a\")", true), None);
}

#[test]
fn lines_that_await_are_seen() {
    assert!(has_top_level_await("await x"));
    assert!(has_top_level_await("a\n for await (const b of c) {}"));
    assert!(!has_top_level_await("  await x"));
    assert!(!has_top_level_await("x = await y"));
    assert!(!has_top_level_await("await(x)"));
    assert!(!has_top_level_await(""));
    assert!(has_top_level_await("const f = async () => {\n};\nawait f()"));
    assert!(has_top_level_await("const f = async () => 1\nawait f()"));
    assert!(has_top_level_await("const a = b / c, d = `${e}{`;\nawait f(/[/\"}]/)"));
    assert!(has_top_level_await("const a =\nawait f()"));
    assert!(has_top_level_await("x = /{/;\n\tawait y"));
}

#[test]
fn lines_that_await_in_blocks_are_seen() {
    for text in [
        "{\nawait b;\n}",
        "if (a) {\nawait b;\n}",
        "if (a) b\nelse {\nawait b\n}",
        "for (const a of b) {\nawait a\n}",
        "for await (const a of b) {\nawait a\n}",
        "while (a()) {\nawait b\n}",
        "do {\nawait b\n} while (a)",
        "try {\nawait b\n} catch {}",
        "try {} catch (e) {\nawait b\n}",
        "try {} finally {\nawait b\n}",
        "switch (a) {\ncase 1: {\nawait b\n}\n}",
        "switch (a) {\ndefault:\nawait b\n}",
        "label: {\nawait b\n}",
        "foo()\n{\nawait b\n}",
        "function f() {}\n{\nawait b\n}",
        "class A { m() {} }\nif (a) {\nawait b\n}",
        "const f = async () => 1\nif (a) {\nawait b\n}",
        "f(\nawait b\n)",
        "x = [\nawait b\n]",
        "x = {\na:\nawait b }",
        "x = `${\nawait b}`",
        "f(async () => 1,\nawait b)",
        "x = a ? async () => 1 :\nawait b",
        "x = [...\nawait b]",
        "a()/\"/\"\nawait b",
        "if (a) /\"/.test(b)\nawait c",
        "x = {} / 2 / \"}\"\nawait c",
        "function f() {}\n/}/.test(x)\nawait c",
        "#!/usr/bin/env it's\nawait b",
        "x = a?.b ? c : d ?? e\nawait b",
    ] {
        assert!(has_top_level_await(text), "{}", text);
    }
}

#[test]
fn lines_that_await_in_functions_are_passed_over() {
    for text in [
        "x = { async m() {\nawait b\n} }",
        "x = { async 'm'() {\nawait b\n}, async [m]() {\nawait b\n}, async if(a) {\nawait b\n} }",
        "class A { async m() { if (a) {\nawait b\n} } static async catch(e) {\nawait b\n} }",
        "class A extends f() { async m() {\nawait b\n} #p() {\nawait b\n} }",
        "class A { static {\nawait b\n} }",
        "export default { async m() {\nawait b\n} }",
        "const f = async function* () {\nawait b\n}",
        "async function f()\n{\nawait b\n}",
        "async function \u{e9}() {\nawait b\n}",
        "f(async (a) => {\nawait b\n})",
        "const f = async () => g(\nawait b)",
        "const f = async () => ({ a:\nawait b })",
        "const f = async () => x ? y :\nawait b",
        "const f = async () => `${\nawait b}`",
        "if (a) { const f = async () => {\nawait b\n} }",
        "x = {\nawait : 1 }",
    ] {
        assert!(!has_top_level_await(text), "{}", text);
    }

    assert!(!has_top_level_await("async function f() {\nawait g();\n}"));
    assert!(!has_top_level_await("const f = async () =>\nawait g()"));
    assert!(!has_top_level_await("const f = async () => 1 +\nawait g()"));
    assert!(!has_top_level_await("g(async () => {\nfor await (const a of b) {}\n})"));
    assert!(!has_top_level_await("class C { async m() {\nawait x;\n} }"));
    assert!(!has_top_level_await("async function f() { x = /}/;\nawait g() }"));
    assert!(!has_top_level_await("async function f() { if (x) /}/.test(y);\nawait g() }"));
    assert!(!has_top_level_await("async function f() { x = `}${`}`}`;\nawait g() }"));
    assert!(!has_top_level_await("/*\nawait x\n*/ `\nawait x\n`; x.\nawait y"));
}

#[test]
fn source_phase_imports_are_parsed() {
    assert_eq!(
        parse_source_phase_at("import source m from \"a.wasm\"; x"),
        Some((30, "m".to_string(), "a.wasm".to_string()))
    );
    assert_eq!(
        parse_source_phase_at("import\n source $_1 from'é'"),
        Some((27, "$_1".to_string(), "é".to_string()))
    );
    for bad in [
        "import m from 'a'", "importsource m from 'a'", "import source", "import sourcem from 'a'",
        "import source - from 'a'", "import source m form 'a'", "import source m from", "import source m from a",
        "import source m from 'a", "x",
    ] {
        assert_eq!(parse_source_phase_at(bad), None, "{}", bad);
    }
}

#[test]
fn source_phase_imports_become_lookups() {
    let mut counter: u64 = 5;
    let (text, records) = rewrite_source_phase(
        "import source a from \"a.wasm\";\nxé;import source b from 'b.wasm'\nreimport source c from 'c';",
        &mut counter,
    );
    assert_eq!(
        text,
        "const a=globalThis.__v82jsc_wasm_src.get(5);\nxé;const b=globalThis.__v82jsc_wasm_src.get(6);\nreimport source c from 'c';"
    );
    assert_eq!(records, vec![(5, "a.wasm".to_string()), (6, "b.wasm".to_string())]);
    assert_eq!(counter, 7);
    let (text, records) = rewrite_source_phase("import  source a from 'a'", &mut counter);
    assert_eq!((text.as_str(), records.len(), counter), ("import  source a from 'a'", 0, 7));
    assert_eq!(next_src_phase_id(&mut counter), 7);
    assert_eq!(counter, 8);
}

#[test]
fn relative_specifiers_are_resolved() {
    assert_eq!(resolve_relative_specifier("file:///a/b/c.js", "./d.js"), "file:///a/b/d.js");
    assert_eq!(resolve_relative_specifier("file:///a/b/c.js", "../d.js"), "file:///a/d.js");
    assert_eq!(resolve_relative_specifier("file:///c.js", "../../d//e.js"), "file:///d/e.js");
    assert_eq!(resolve_relative_specifier("a/b.js", "./c.js"), "a/c.js");
    assert_eq!(resolve_relative_specifier("b.js", "./c.js"), "c.js");
    assert_eq!(resolve_relative_specifier("https://h/x/y.js", "./z.js"), "https://h/x/z.js");
    assert_eq!(resolve_relative_specifier("/a/b", "./."), "/a");
    assert_eq!(resolve_relative_specifier("https://h.com/a.js", "../x.js"), "https://h.com/x.js");
    assert_eq!(resolve_relative_specifier("https://h.com/a/b.js", "../../../x.js"), "https://h.com/x.js");
    assert_eq!(resolve_relative_specifier("https://h.com", "./x.js"), "https://h.com/x.js");
}

#[test]
fn going_down_and_up_leads_back() {
    for base in ["file:///a/b/c.js", "https://h.com/a.js", "https://h.com", "a/b.js", "b.js", "/x", ""] {
        let below = resolve_relative_specifier(base, "./p/q");
        assert_eq!(
            resolve_relative_specifier(&below, "../t"),
            resolve_relative_specifier(base, "./t")
        );
    }
}

#[test]
fn recorded_resolutions_win() {
    let mut r = Resolutions::new();
    let mut s = ModuleSources::new();
    r.record_resolved_specifier("file:///a.js", "./b.js", "file:///other.js");
    assert_eq!(normalize_specifier(&r, &s, "file:///a.js", "./b.js", false), "file:///other.js");
    assert_eq!(normalize_specifier(&r, &s, "file:///x/c.js", "./b.js", false), "file:///x/b.js");
    r.record_resolved_specifier("file:///a.js", "./b.js", "file:///newer.js");
    assert_eq!(r.lookup_resolved_specifier("file:///a.js", "./b.js"), Some("file:///newer.js".to_string()));
    assert_eq!(r.lookup_resolved_specifier("file:///a.js", "./c.js"), None);
    // Bare names: a builtin, then what any module resolved them to, then the name itself.
    assert_eq!(normalize_specifier(&r, &s, "x", "fs", false), "fs");
    assert_eq!(normalize_specifier(&r, &s, "x", "fs", true), "node:fs");
    s.register_module_source("node:path", "text");
    s.register_module_source("", "nothing");
    assert_eq!(s.lookup_module_source_by_name("node:path"), Some("text".to_string()));
    assert_eq!(s.lookup_module_source_by_name(""), None);
    assert_eq!(normalize_specifier(&r, &s, "x", "path", false), "node:path");
    r.record_resolved_specifier("y", "preact", "https://p");
    assert_eq!(r.lookup_resolved_specifier_any("preact"), Some("https://p".to_string()));
    assert_eq!(r.lookup_resolved_specifier_any("react"), None);
    assert_eq!(normalize_specifier(&r, &s, "x", "preact", false), "https://p");
    assert_eq!(normalize_specifier(&r, &s, "x", "npm:react", true), "npm:react");
    assert_eq!(normalize_specifier(&r, &s, "x", "/abs.js", true), "/abs.js");
    // A resolution that holds a NUL cannot be handed over.
    r.record_resolved_specifier("x", "q", "a\0b");
    assert_eq!(normalize_specifier(&r, &s, "x", "q", false), "q");
    assert_eq!(builtin_name("fs"), "node:fs");
}

#[test]
fn bytecode_keys_hash_the_source() {
    for source in ["", "x", "import 'é';"] {
        let mut h = DefaultHasher::new();
        BC_MAGIC.hash(&mut h);
        source.len().hash(&mut h);
        source.hash(&mut h);
        assert_eq!(bc_key(source), h.finish());
    }
    assert_eq!(BC_MAGIC, 0x5142_4302);
}

#[test]
fn bytecode_files_are_named_by_key() {
    assert_eq!(bc_path(0), "0000000000000000.qbc");
    assert_eq!(bc_path(0xabc), "0000000000000abc.qbc");
    assert_eq!(bc_path(u64::MAX), "ffffffffffffffff.qbc");
    assert_eq!(bc_load(None), None);
    assert_eq!(bc_load(Some(vec![])), None);
    assert_eq!(bc_load(Some(vec![1])), Some(vec![1]));
}

#[test]
fn functions_are_wrapped_for_quickjs() {
    let args = vec!["a".to_string(), "b".to_string()];
    assert_eq!(
        compile_function_source(&args, Some("#!/bin/x\nreturn 1")),
        Ok("(function(a,b) {\n///bin/x\nreturn 1\n})".to_string())
    );
    assert_eq!(compile_function_source(&[], Some("")), Ok("(function() {\n\n})".to_string()));
    assert_eq!(compile_function_source(&[], Some("\0")), Err(CompileFunctionError::NulInSource));
    assert_eq!(compile_function_source(&[], None), Err(CompileFunctionError::InvalidSource));
    assert_eq!(error_message(CompileFunctionError::NulInSource), "compile_function: NUL in source");
    assert_eq!(error_message(CompileFunctionError::InvalidSource), "compile_function: invalid source");
    assert_eq!(compile_function_name("a.js"), "a.js");
    assert_eq!(compile_function_name(""), "<function>");
    assert_eq!(compile_function_name("a\0"), "<function>");
}
