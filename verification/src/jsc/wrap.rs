//! The scripts that the layer hands to the engine in place of function bodies and modules.

use crate::jsc::dynamic_import::{redirect, redirected};
use crate::jsc::rewrite::{namespace_expr, namespace_of, string_triples, Binding};
use crate::text::{
    all_chars, begins, char_from, chars_of, contains_char, find_char, is_text, join, joined,
    lemma_char_from, push_all, push_str, quote, quoted, starts_with, string_of, strings, tail,
};
use vstd::prelude::*;

verus! {

/// `body` without the line that `#!` begins, where it begins with one.
pub open spec fn without_shebang(body: Seq<char>) -> Seq<char> {
    if begins(body, "#!"@) {
        match char_from(body, '\n', 0) {
            Some(k) => body.skip(k + 1),
            None => seq![],
        }
    } else {
        body
    }
}

/// The declaration of the function that dynamic imports go through; `quoted_referrer` is the address
/// of the importing text, in quotes.
pub open spec fn import_helper(quoted_referrer: Seq<char>) -> Seq<char> {
    "const __v82jsc_dynImport=(s,o)=>globalThis.__v82jsc_dynamicImport(s,"@ + quoted_referrer
        + ",o);\n"@
}

/// A function expression with these parameters and this body, whose dynamic imports know where they
/// come from.
pub open spec fn function_text(args: Seq<Seq<char>>, body: Seq<char>, quoted_name: Seq<char>) -> Seq<
    char,
> {
    "(function("@ + joined(args, ","@) + ") {\n"@ + import_helper(quoted_name) + redirected(
        without_shebang(body),
    ) + "\n})"@
}

/// The engine takes text that ends at its first NUL: text that holds one cannot be handed over.
pub open spec fn passable(s: Seq<char>) -> Option<Seq<char>> {
    if s.contains('\0') {
        None
    } else {
        Some(s)
    }
}

/// `s` as a string, unless it holds a NUL.
fn pass(s: &[char]) -> (r: Option<String>)
    ensures
        match r {
            Some(t) => passable(s@) == Some(t@),
            None => passable(s@) is None,
        },
{
    if contains_char(s, '\0') {
        None
    } else {
        Some(string_of(s))
    }
}

/// Appends the declaration of the function that dynamic imports go through.
fn push_import_helper(out: &mut Vec<char>, quoted_referrer: &[char])
    ensures
        final(out)@ == old(out)@ + import_helper(quoted_referrer@),
{
    let ghost before = out@;
    push_str(out, "const __v82jsc_dynImport=(s,o)=>globalThis.__v82jsc_dynamicImport(s,");
    push_all(out, quoted_referrer);
    push_str(out, ",o);\n");
    assert(out@ =~= before + import_helper(quoted_referrer@));
}

/// `s` without the line that `#!` begins.
fn strip_shebang(s: &[char]) -> (r: Vec<char>)
    ensures
        r@ == without_shebang(s@),
{
    if starts_with(s, "#!") {
        proof {
            lemma_char_from(s@, '\n', 0);
        }
        match find_char(s, '\n', 0) {
            Some(k) => {
                assert(k < s.len());
                crate::text::copied(tail(s, k + 1))
            },
            None => Vec::new(),
        }
    } else {
        crate::text::copied(s)
    }
}

/// A function expression with the parameters `args` and this body; `quoted_name` is the address of
/// the text in quotes. A first line that `#!` begins is dropped. `None` where the result would hold a
/// NUL.
pub fn function_source(body: &str, args: &[String], quoted_name: &[char]) -> (r: Option<String>)
    ensures
        match r {
            Some(t) => passable(function_text(strings(args@), body@, quoted_name@)) == Some(t@),
            None => passable(function_text(strings(args@), body@, quoted_name@)) is None,
        },
{
    let body_chars = chars_of(body);
    let mut out = chars_of("(function(");
    push_all(&mut out, &join(&all_chars(args), ","));
    push_str(&mut out, ") {\n");
    push_import_helper(&mut out, quoted_name);
    push_all(&mut out, &redirect(&strip_shebang(&body_chars)));
    push_str(&mut out, "\n})");
    assert(out@ =~= function_text(strings(args@), body@, quoted_name@));
    pass(&out)
}

/// The script that compiles a function from its body, its parameters and the address of its text.
pub fn compile_function_source(body: &str, args: &[String], resource_name: &str) -> (r: Option<
    String,
>)
    ensures
        match r {
            Some(t) => passable(
                function_text(strings(args@), body@, quoted(resource_name@)),
            ) == Some(t@),
            None => passable(
                function_text(strings(args@), body@, quoted(resource_name@)),
            ) is None,
        },
{
    let name = chars_of(resource_name);
    function_source(body, args, &quote(&name))
}

/// The function expression that runs a module's script. An asynchronous module first waits for the
/// promises of its dependencies, where there are any.
pub open spec fn module_text(
    body: Seq<char>,
    is_async: bool,
    waits: bool,
    quoted_url: Seq<char>,
) -> Seq<char> {
    "("@ + (if is_async {
        "async function"@
    } else {
        "function"@
    }) + "(__ns, __v8jsc_meta, __deps){\n"@ + import_helper(quoted_url) + (if is_async && waits {
        "await Promise.all(__deps);\n"@
    } else {
        ""@
    }) + redirected(body) + "\n})"@
}

/// The function expression that runs a module's script; `quoted_url` is the module's address in
/// quotes. `None` where the result would hold a NUL.
pub fn module_source(body: &str, is_async: bool, waits: bool, quoted_url: &[char]) -> (r: Option<
    String,
>)
    ensures
        match r {
            Some(t) => passable(module_text(body@, is_async, waits, quoted_url@)) == Some(t@),
            None => passable(module_text(body@, is_async, waits, quoted_url@)) is None,
        },
{
    let body_chars = chars_of(body);
    let mut out = chars_of("(");
    push_str(
        &mut out,
        if is_async {
            "async function"
        } else {
            "function"
        },
    );
    push_str(&mut out, "(__ns, __v8jsc_meta, __deps){\n");
    push_import_helper(&mut out, quoted_url);
    push_str(
        &mut out,
        if is_async && waits {
            "await Promise.all(__deps);\n"
        } else {
            ""
        },
    );
    push_all(&mut out, &redirect(&body_chars));
    push_str(&mut out, "\n})");
    assert(out@ =~= module_text(body@, is_async, waits, quoted_url@));
    pass(&out)
}

/// The function expression that runs the script of the module `source_url`, which waits for
/// `dependencies` promises if it is asynchronous.
pub fn eval_module_source(body: &str, is_async: bool, dependencies: usize, source_url: &str) -> (r:
    Option<String>)
    ensures
        match r {
            Some(t) => passable(
                module_text(body@, is_async, dependencies > 0, quoted(source_url@)),
            ) == Some(t@),
            None => passable(
                module_text(body@, is_async, dependencies > 0, quoted(source_url@)),
            ) is None,
        },
{
    let url = chars_of(source_url);
    module_source(body, is_async, dependencies > 0, &quote(&url))
}

/// The value of a re-export: the source module's namespace where its name there is `*`, else the
/// property of that name.
pub open spec fn reexport_value(spec: Seq<char>, source: Seq<char>) -> Seq<char> {
    if source == "*"@ {
        namespace_of(spec)
    } else {
        namespace_of(spec) + "["@ + quoted(source) + "]"@
    }
}

/// The statement that defines one live re-export.
pub open spec fn getter_text(r: Binding) -> Seq<char> {
    "Object.defineProperty(__ns, "@ + quoted(r.0)
        + ", {configurable:true, enumerable:true, get:function(){ return "@ + reexport_value(
        r.1,
        r.2,
    ) + "; }});\n"@
}

/// The statements that define these live re-exports.
pub open spec fn getter_texts(list: Seq<Binding>) -> Seq<char>
    decreases list.len(),
{
    if list.len() == 0 {
        seq![]
    } else {
        getter_texts(list.drop_last()) + getter_text(list.last())
    }
}

/// The function expression that installs live re-exports on a namespace; there is none where nothing
/// is re-exported or the text would hold a NUL.
pub open spec fn getters_script(list: Seq<Binding>) -> Option<Seq<char>> {
    if list.len() == 0 {
        None
    } else {
        passable("(function(__ns){\n"@ + getter_texts(list) + "})"@)
    }
}

/// Appends the statement that defines one live re-export.
fn push_getter(out: &mut Vec<char>, r: &(String, String, String))
    ensures
        final(out)@ == old(out)@ + getter_text((r.0@, r.1@, r.2@)),
{
    let ghost before = out@;
    let exported = chars_of(&r.0);
    let spec = chars_of(&r.1);
    let source = chars_of(&r.2);
    push_str(out, "Object.defineProperty(__ns, ");
    push_all(out, &quote(&exported));
    push_str(out, ", {configurable:true, enumerable:true, get:function(){ return ");
    let ghost opened = out@;
    push_all(out, &namespace_expr(&quote(&spec)));
    if !is_text(&source, "*") {
        push_str(out, "[");
        push_all(out, &quote(&source));
        push_str(out, "]");
    }
    assert(out@ =~= opened + reexport_value(r.1@, r.2@));
    push_str(out, "; }});\n");
    assert(out@ =~= before + getter_text((r.0@, r.1@, r.2@)));
}

/// The function expression that installs live re-exports on a namespace.
pub fn install_reexport_getters(reexports: &[(String, String, String)]) -> (r: Option<String>)
    ensures
        match r {
            Some(t) => getters_script(string_triples(reexports@)) == Some(t@),
            None => getters_script(string_triples(reexports@)) is None,
        },
{
    if reexports.len() == 0 {
        return None;
    }
    let ghost all = string_triples(reexports@);
    let mut out = chars_of("(function(__ns){\n");
    let mut i: usize = 0;
    while i < reexports.len()
        invariant
            i <= reexports.len(),
            all == string_triples(reexports@),
            out@ =~= "(function(__ns){\n"@ + getter_texts(all.take(i as int)),
        decreases reexports.len() - i,
    {
        push_getter(&mut out, &reexports[i]);
        assert(all.take(i + 1).drop_last() =~= all.take(i as int));
        assert(all.take(i + 1).last() == all[i as int]);
        i += 1;
    }
    assert(all.take(all.len() as int) =~= all);
    push_str(&mut out, "})");
    pass(&out)
}

/// The message for a module whose syntax the rewriter does not take.
pub open spec fn unsupported_text(specifier: Seq<char>) -> Seq<char> {
    "v82jsc: unsupported ES module syntax in "@ + (if specifier.len() == 0 {
        "<module>"@
    } else {
        specifier
    })
}

/// The message for a module whose syntax the rewriter does not take.
pub fn unsupported_syntax(specifier: &str) -> (r: String)
    ensures
        r@ == unsupported_text(specifier@),
{
    let spec = chars_of(specifier);
    let mut out = chars_of("v82jsc: unsupported ES module syntax in ");
    if spec.len() == 0 {
        push_str(&mut out, "<module>");
    } else {
        push_all(&mut out, &spec);
    }
    assert(out@ =~= unsupported_text(specifier@));
    string_of(&out)
}

} // verus!
