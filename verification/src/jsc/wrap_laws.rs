//! What the scripts that the layer hands to the engine say, character by character.

use crate::jsc::dynamic_import::redirected;
use crate::jsc::rewrite::{string_triples, Binding};
use crate::jsc::wrap::{
    function_text, getter_text, getter_texts, getters_script, install_reexport_getters, module_text,
    passable, unsupported_text, without_shebang,
};
use crate::text::{char_from, joined, lemma_char_from, quoted};
use vstd::prelude::*;

verus! {

/// The getter of a re-export returns the property of its source name in the namespace of its module,
/// whatever that name is: only `*` stands for the namespace itself.
pub proof fn law_getter_reads_the_property(exported: Seq<char>, spec: Seq<char>, source: Seq<char>)
    requires
        source != seq!['*'],
    ensures
        getter_text((exported, spec, source)) == "Object.defineProperty(__ns, "@ + quoted(exported)
            + ", {configurable:true, enumerable:true, get:function(){ return "@
            + "((globalThis.__v8jsc_modules||{})["@ + quoted(spec) + "]||{})"@ + "["@ + quoted(source)
            + "]"@ + "; }});\n"@,
{
    reveal_strlit("*");
    assert("*"@ =~= seq!['*']);
    assert(getter_text((exported, spec, source)) =~= "Object.defineProperty(__ns, "@ + quoted(
        exported,
    ) + ", {configurable:true, enumerable:true, get:function(){ return "@
        + "((globalThis.__v8jsc_modules||{})["@ + quoted(spec) + "]||{})"@ + "["@ + quoted(source)
        + "]"@ + "; }});\n"@);
}

/// The getter of a re-exported namespace returns the namespace.
pub proof fn law_getter_reads_the_namespace(exported: Seq<char>, spec: Seq<char>)
    ensures
        getter_text((exported, spec, seq!['*'])) == "Object.defineProperty(__ns, "@ + quoted(exported)
            + ", {configurable:true, enumerable:true, get:function(){ return "@
            + "((globalThis.__v8jsc_modules||{})["@ + quoted(spec) + "]||{})"@ + "; }});\n"@,
{
    reveal_strlit("*");
    assert("*"@ =~= seq!['*']);
    assert(getter_text((exported, spec, seq!['*'])) =~= "Object.defineProperty(__ns, "@ + quoted(
        exported,
    ) + ", {configurable:true, enumerable:true, get:function(){ return "@
        + "((globalThis.__v8jsc_modules||{})["@ + quoted(spec) + "]||{})"@ + "; }});\n"@);
}

/// The statements for a list and one more are those for the list and then that for the one.
pub proof fn law_getters_stand_in_order(list: Seq<Binding>, more: Seq<Binding>)
    ensures
        getter_texts(list + more) == getter_texts(list) + getter_texts(more),
        list.len() == 1 ==> getter_texts(list) == getter_text(list[0]),
    decreases more.len(),
{
    if more.len() == 0 {
        assert(list + more =~= list);
        assert(getter_texts(list) + getter_texts(more) =~= getter_texts(list));
    } else {
        law_getters_stand_in_order(list, more.drop_last());
        assert((list + more).drop_last() =~= list + more.drop_last());
        assert(getter_texts(list + more) =~= getter_texts(list) + getter_texts(more));
    }
    if list.len() == 1 {
        assert(list.drop_last() =~= seq![]);
        assert(getter_texts(list.drop_last()) =~= seq![]);
        assert(getter_texts(list) =~= getter_text(list[0]));
    }
}

/// The script that installs getters holds all of them, and there is none only where there is nothing to
/// install or a NUL would cut it short.
pub proof fn law_getters_script_holds_all(list: Seq<Binding>)
    ensures
        list.len() == 0 ==> getters_script(list) is None,
        list.len() > 0 && !getter_texts(list).contains('\0') ==> getters_script(list) == Some(
            "(function(__ns){\n"@ + getter_texts(list) + "})"@,
        ),
        getters_script(list) matches Some(t) ==> !t.contains('\0'),
{
    reveal_strlit("(function(__ns){\n");
    reveal_strlit("})");
    let inner = getter_texts(list);
    let t = "(function(__ns){\n"@ + inner + "})"@;
    if !inner.contains('\0') {
        assert forall|i: int| 0 <= i < t.len() implies t[i] != '\0' by {
            if 17 <= i < 17 + inner.len() {
                assert(t[i] == inner[i - 17]);
            } else if i < 17 {
                assert(t[i] == "(function(__ns){\n"@[i]);
            } else {
                assert(t[i] == "})"@[i - 17 - inner.len()]);
            }
        }
    }
}

/// Only a NUL keeps text from the engine, and text that is handed over is handed over as it is.
pub proof fn law_only_nul_is_refused(s: Seq<char>)
    ensures
        s.contains('\0') ==> passable(s) is None,
        !s.contains('\0') ==> passable(s) == Some(s),
{
}

/// A first line that `#!` begins is dropped with its line feed.
pub proof fn law_shebang_is_dropped(line: Seq<char>, rest: Seq<char>)
    requires
        !line.contains('\n'),
    ensures
        without_shebang("#!"@ + line + "\n"@ + rest) == rest,
        without_shebang("#!"@ + line) == Seq::<char>::empty(),
{
    reveal_strlit("#!");
    reveal_strlit("\n");
    let s = "#!"@ + line + "\n"@ + rest;
    let k = 2 + line.len() as int;
    assert(s.subrange(0, 2) =~= "#!"@);
    lemma_char_from(s, '\n', 0);
    assert(s[k] == '\n');
    assert forall|i: int| 0 <= i < k implies s[i] != '\n' by {
        if i >= 2 {
            assert(s[i] == line[i - 2]);
        }
    }
    assert(char_from(s, '\n', 0) == Some(k));
    assert(s.skip(k + 1) =~= rest);
    let t = "#!"@ + line;
    assert(t.subrange(0, 2) =~= "#!"@);
    lemma_char_from(t, '\n', 0);
    assert forall|i: int| 0 <= i < t.len() implies t[i] != '\n' by {
        if i >= 2 {
            assert(t[i] == line[i - 2]);
        }
    }
}

/// A body whose first two characters are not `#!` keeps its first line.
pub proof fn law_other_first_lines_are_kept(body: Seq<char>)
    requires
        body.len() < 2 || body[0] != '#' || body[1] != '!',
    ensures
        without_shebang(body) == body,
{
    reveal_strlit("#!");
    if body.len() >= 2 && body.subrange(0, 2) == "#!"@ {
        assert(body.subrange(0, 2)[0] == body[0] && body.subrange(0, 2)[1] == body[1]);
    }
}

/// A compiled function has its parameters in parentheses, separated by commas, then the helper for dynamic
/// imports with the address of the text, then the body without a first line that `#!` begins.
pub proof fn law_function_script(args: Seq<Seq<char>>, body: Seq<char>, quoted_name: Seq<char>)
    ensures
        function_text(args, body, quoted_name) == "(function("@ + joined(args, ","@) + ") {\n"@
            + "const __v82jsc_dynImport=(s,o)=>globalThis.__v82jsc_dynamicImport(s,"@ + quoted_name
            + ",o);\n"@ + redirected(without_shebang(body)) + "\n})"@,
{
    assert(function_text(args, body, quoted_name) =~= "(function("@ + joined(args, ","@) + ") {\n"@
        + "const __v82jsc_dynImport=(s,o)=>globalThis.__v82jsc_dynamicImport(s,"@ + quoted_name
        + ",o);\n"@ + redirected(without_shebang(body)) + "\n})"@);
}

/// A module that does not await runs as a plain function, which waits for nothing.
pub proof fn law_synchronous_module_script(body: Seq<char>, waits: bool, quoted_url: Seq<char>)
    ensures
        module_text(body, false, waits, quoted_url) == "(function(__ns, __v8jsc_meta, __deps){\n"@
            + "const __v82jsc_dynImport=(s,o)=>globalThis.__v82jsc_dynamicImport(s,"@ + quoted_url
            + ",o);\n"@ + redirected(body) + "\n})"@,
{
    reveal_strlit("(");
    reveal_strlit("function");
    reveal_strlit("(__ns, __v8jsc_meta, __deps){\n");
    reveal_strlit("(function(__ns, __v8jsc_meta, __deps){\n");
    reveal_strlit("");
    assert("("@ + "function"@ + "(__ns, __v8jsc_meta, __deps){\n"@
        =~= "(function(__ns, __v8jsc_meta, __deps){\n"@);
    assert(module_text(body, false, waits, quoted_url)
        =~= "(function(__ns, __v8jsc_meta, __deps){\n"@
        + "const __v82jsc_dynImport=(s,o)=>globalThis.__v82jsc_dynamicImport(s,"@ + quoted_url
        + ",o);\n"@ + redirected(body) + "\n})"@);
}

/// A module that awaits runs as an asynchronous function, which first waits for its dependencies where there
/// are any.
pub proof fn law_asynchronous_module_script(body: Seq<char>, quoted_url: Seq<char>)
    ensures
        module_text(body, true, false, quoted_url)
            == "(async function(__ns, __v8jsc_meta, __deps){\n"@
            + "const __v82jsc_dynImport=(s,o)=>globalThis.__v82jsc_dynamicImport(s,"@ + quoted_url
            + ",o);\n"@ + redirected(body) + "\n})"@,
        module_text(body, true, true, quoted_url)
            == "(async function(__ns, __v8jsc_meta, __deps){\n"@
            + "const __v82jsc_dynImport=(s,o)=>globalThis.__v82jsc_dynamicImport(s,"@ + quoted_url
            + ",o);\n"@ + "await Promise.all(__deps);\n"@ + redirected(body) + "\n})"@,
{
    reveal_strlit("(");
    reveal_strlit("async function");
    reveal_strlit("(__ns, __v8jsc_meta, __deps){\n");
    reveal_strlit("(async function(__ns, __v8jsc_meta, __deps){\n");
    reveal_strlit("");
    assert("("@ + "async function"@ + "(__ns, __v8jsc_meta, __deps){\n"@
        =~= "(async function(__ns, __v8jsc_meta, __deps){\n"@);
    assert(module_text(body, true, false, quoted_url)
        =~= "(async function(__ns, __v8jsc_meta, __deps){\n"@
        + "const __v82jsc_dynImport=(s,o)=>globalThis.__v82jsc_dynamicImport(s,"@ + quoted_url
        + ",o);\n"@ + redirected(body) + "\n})"@);
    assert(module_text(body, true, true, quoted_url)
        =~= "(async function(__ns, __v8jsc_meta, __deps){\n"@
        + "const __v82jsc_dynImport=(s,o)=>globalThis.__v82jsc_dynamicImport(s,"@ + quoted_url
        + ",o);\n"@ + "await Promise.all(__deps);\n"@ + redirected(body) + "\n})"@);
}

/// The message for unsupported syntax names the module; one without a name shows as `<module>`.
pub proof fn law_unsupported_message_names_the_module(specifier: Seq<char>)
    ensures
        specifier.len() > 0 ==> unsupported_text(specifier)
            == "v82jsc: unsupported ES module syntax in "@ + specifier,
        unsupported_text(seq![]) == "v82jsc: unsupported ES module syntax in <module>"@,
{
    reveal_strlit("v82jsc: unsupported ES module syntax in ");
    reveal_strlit("<module>");
    reveal_strlit("v82jsc: unsupported ES module syntax in <module>");
    assert(unsupported_text(seq![]) =~= "v82jsc: unsupported ES module syntax in <module>"@);
}

/// `install_reexport_getters` gives for one re-export the script that defines one getter, which reads the
/// property of the source name.
pub proof fn law_script_for_one_reexport(
    reexports: &[(String, String, String)],
    r: Option<String>,
    exported: Seq<char>,
    spec: Seq<char>,
    source: Seq<char>,
)
    requires
        call_ensures(install_reexport_getters, (reexports,), r),
        reexports@.len() == 1,
        reexports@[0].0@ == exported,
        reexports@[0].1@ == spec,
        reexports@[0].2@ == source,
        source != seq!['*'],
        !getter_text((exported, spec, source)).contains('\0'),
    ensures
        r matches Some(t) && t@ == "(function(__ns){\n"@ + ("Object.defineProperty(__ns, "@ + quoted(
            exported,
        ) + ", {configurable:true, enumerable:true, get:function(){ return "@
            + "((globalThis.__v8jsc_modules||{})["@ + quoted(spec) + "]||{})"@ + "["@ + quoted(source)
            + "]"@ + "; }});\n"@) + "})"@,
{
    let list = string_triples(reexports@);
    assert(list.len() == 1 && list[0] == (exported, spec, source));
    law_getters_stand_in_order(list, seq![]);
    law_getters_script_holds_all(list);
    law_getter_reads_the_property(exported, spec, source);
}

} // verus!
