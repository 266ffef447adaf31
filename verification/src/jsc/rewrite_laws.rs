//! What holds of every rewritten module: its imports are those that its statements name, and each of its
//! exports gets a value.

use crate::jsc::comments::without_comments;
use crate::jsc::rewrite::{
    bound, braced_entries, clause_head, declared, export_text, exports_declaration, import_clause,
    list_bindings, namespace_of, no_parts, pattern_local, renamed, rewritten, specifier,
    specifier_or_empty, star_name, star_texts, with_constant, with_export_entries,
    with_export_entry, with_exported_name, with_import, with_pattern_names, with_specifier,
    with_statement, with_statements, Binding, Parts, Rewritten,
};
use crate::jsc::statements::{bare, statements};
use crate::jsc::top_level_await::awaits;
use crate::specifier::lemma_literal;
use crate::text::{
    begins, contains_text, is_name_char, is_white, leading_name, lemma_last_upto, occurs_at, quoted,
    replaced, trimmed, without_prefixes,
};
use vstd::prelude::*;

verus! {

/// What holds of the parts at every point: each re-exported name is an exported name, no imported
/// specifier is empty, and each source of a re-export or of a binding is empty or among the imports.
pub open spec fn consistent(p: Parts) -> bool {
    &&& forall|i: int|
        0 <= i < p.reexports.len() ==> p.export_names.contains((#[trigger] p.reexports[i]).0)
    &&& forall|i: int| 0 <= i < p.imports.len() ==> (#[trigger] p.imports[i]).len() > 0
    &&& forall|i: int|
        0 <= i < p.reexports.len() ==> {
            let spec = (#[trigger] p.reexports[i]).1;
            spec.len() == 0 || p.imports.contains(spec)
        }
    &&& forall|i: int|
        0 <= i < p.bindings.len() ==> {
            let spec = (#[trigger] p.bindings[i]).1;
            spec.len() == 0 || p.imports.contains(spec)
        }
}

proof fn lemma_push_contains(list: Seq<Seq<char>>, x: Seq<char>)
    ensures
        list.push(x).contains(x),
        forall|n: Seq<char>| list.contains(n) ==> #[trigger] list.push(x).contains(n),
{
    assert(list.push(x)[list.len() as int] == x);
    assert forall|n: Seq<char>| list.contains(n) implies #[trigger] list.push(x).contains(n) by {
        let i = choose|i: int| 0 <= i < list.len() && list[i] == n;
        assert(list.push(x)[i] == n);
    }
}

proof fn lemma_bound(bindings: Seq<Binding>, name: Seq<char>)
    ensures
        match bound(bindings, name) {
            Some(b) => exists|i: int|
                0 <= i < bindings.len() && #[trigger] bindings[i] == (name, b.0, b.1),
            None => true,
        },
    decreases bindings.len(),
{
    if bindings.len() > 0 {
        if bindings.last().0 == name {
            assert(bindings[bindings.len() - 1] == bindings.last());
        } else {
            lemma_bound(bindings.drop_last(), name);
            if let Some(b) = bound(bindings, name) {
                let i = choose|i: int|
                    0 <= i < bindings.len() - 1 && #[trigger] bindings.drop_last()[i] == (
                        name,
                        b.0,
                        b.1,
                    );
                assert(bindings[i] == (name, b.0, b.1));
            }
        }
    }
}

proof fn lemma_constant(p: Parts, name: Seq<char>, spec: Seq<char>, source: Seq<char>, expr: Seq<char>)
    requires
        consistent(p),
        spec.len() == 0 || p.imports.contains(spec),
    ensures
        consistent(with_constant(p, name, spec, source, expr)),
{
}

proof fn lemma_import(p: Parts, t: Seq<char>)
    requires
        consistent(p),
    ensures
        consistent(with_import(p, t)),
{
    let spec = specifier_or_empty(t);
    let q = Parts { imports: with_specifier(p.imports, spec), ..p };
    lemma_push_contains(p.imports, spec);
    assert(consistent(q));
    let clause = import_clause(t);
    let expr = namespace_of(spec) + ".default"@;
    if clause.contains('{') {
        lemma_constant(q, clause_head(clause), spec, "default"@, expr);
    } else if begins(clause, "* as "@) {
        lemma_constant(q, trimmed(clause.skip(5)), spec, "*"@, namespace_of(spec));
    } else {
        lemma_constant(q, clause, spec, "default"@, expr);
    }
}

proof fn lemma_export_entries(p: Parts, list: Seq<Seq<char>>, source: Option<Seq<char>>)
    requires
        consistent(p),
        source matches Some(spec) ==> spec.len() == 0 || p.imports.contains(spec),
    ensures
        consistent(with_export_entries(p, list, source)),
        with_export_entries(p, list, source).imports == p.imports,
        with_export_entries(p, list, source).bindings == p.bindings,
    decreases list.len(),
{
    if list.len() > 0 {
        lemma_export_entries(p, list.drop_last(), source);
        let q = with_export_entries(p, list.drop_last(), source);
        let (local, exported) = renamed(list.last());
        lemma_push_contains(q.export_names, exported);
        lemma_bound(q.bindings, local);
    }
}

proof fn lemma_pattern_names(p: Parts, list: Seq<Seq<char>>)
    requires
        consistent(p),
    ensures
        consistent(with_pattern_names(p, list)),
    decreases list.len(),
{
    if list.len() > 0 {
        lemma_pattern_names(p, list.drop_last());
        let q = with_pattern_names(p, list.drop_last());
        lemma_push_contains(q.export_names, leading_name(pattern_local(list.last())));
    }
}

proof fn lemma_statement(p: Parts, line: Seq<char>)
    requires
        consistent(p),
    ensures
        with_statement(p, line) matches Some(q) ==> consistent(q),
{
    let t = bare(trimmed(line));
    if begins(t, "export *"@) {
        let spec = specifier_or_empty(t);
        lemma_push_contains(p.imports, spec);
        if let Some(n) = star_name(t) {
            lemma_push_contains(p.export_names, n);
        }
    } else if begins(t, "import "@) || t == "import"@ {
        lemma_import(p, t);
    } else if begins(t, "export {"@) || begins(t, "export{"@) {
        let spec = specifier_or_empty(t);
        lemma_push_contains(p.imports, spec);
        if contains_text(t, " from "@) {
            lemma_export_entries(
                Parts { imports: with_specifier(p.imports, spec), ..p },
                braced_entries(t),
                Some(spec),
            );
        } else {
            lemma_export_entries(p, braced_entries(t), None);
        }
    } else if begins(t, "export default "@) {
        lemma_push_contains(p.export_names, "default"@);
    } else if exports_declaration(t) {
        let rest = t.skip(7);
        let q = Parts { out: p.out + rest + seq!['\n'], ..p };
        assert(consistent(q));
        let after = declared(rest);
        lemma_pattern_names(q, braced_entries(after));
        lemma_push_contains(q.export_names, leading_name(after));
    }
}

proof fn lemma_statements(lines: Seq<Seq<char>>)
    ensures
        with_statements(lines) matches Some(p) ==> consistent(p),
    decreases lines.len(),
{
    if lines.len() > 0 {
        lemma_statements(lines.drop_last());
        if let Some(p) = with_statements(lines.drop_last()) {
            lemma_statement(p, lines.last());
        }
    }
}

/// Every name that a rewritten module re-exports live is one of its exported names.
pub proof fn law_reexports_are_exports(src: Seq<char>, i: int)
    requires
        rewritten(src) is Some,
        0 <= i < rewritten(src)->0.reexports.len(),
    ensures
        rewritten(src)->0.export_names.contains(rewritten(src)->0.reexports[i].0),
{
    lemma_statements(statements(without_comments(src)));
}

/// Every module that a rewritten module re-exports from is one of its imports, where the statement
/// names one.
pub proof fn law_reexports_come_from_imports(src: Seq<char>, i: int)
    requires
        rewritten(src) is Some,
        0 <= i < rewritten(src)->0.reexports.len(),
    ensures
        ({
            let spec = rewritten(src)->0.reexports[i].1;
            spec.len() == 0 || rewritten(src)->0.imports.contains(spec)
        }),
{
    lemma_statements(statements(without_comments(src)));
}

/// The statement `t`, stripped of what may stand before it, can name a module: an import, a star export, or
/// an export list with ` from `.
pub open spec fn may_name_module(t: Seq<char>) -> bool {
    ||| begins(t, "export *"@)
    ||| begins(t, "import "@)
    ||| t == "import"@
    ||| (begins(t, "export {"@) || begins(t, "export{"@)) && contains_text(t, " from "@)
}

/// The modules that these statements name, in order.
pub open spec fn named_modules(lines: Seq<Seq<char>>) -> Seq<Seq<char>>
    decreases lines.len(),
{
    if lines.len() == 0 {
        seq![]
    } else {
        let t = bare(trimmed(lines.last()));
        let rest = named_modules(lines.drop_last());
        if may_name_module(t) {
            with_specifier(rest, specifier_or_empty(t))
        } else {
            rest
        }
    }
}

proof fn lemma_entries_keep_imports(p: Parts, list: Seq<Seq<char>>, source: Option<Seq<char>>)
    ensures
        with_export_entries(p, list, source).imports == p.imports,
    decreases list.len(),
{
    if list.len() > 0 {
        lemma_entries_keep_imports(p, list.drop_last(), source);
    }
}

proof fn lemma_patterns_keep_imports(p: Parts, list: Seq<Seq<char>>)
    ensures
        with_pattern_names(p, list).imports == p.imports,
    decreases list.len(),
{
    if list.len() > 0 {
        lemma_patterns_keep_imports(p, list.drop_last());
    }
}

proof fn lemma_named_modules(lines: Seq<Seq<char>>)
    ensures
        with_statements(lines) matches Some(p) ==> p.imports == named_modules(lines),
    decreases lines.len(),
{
    if lines.len() > 0 {
        lemma_named_modules(lines.drop_last());
        if let Some(p) = with_statements(lines.drop_last()) {
            let t = bare(trimmed(lines.last()));
            let spec = specifier_or_empty(t);
            if begins(t, "export *"@) {
            } else if begins(t, "import "@) || t == "import"@ {
            } else if begins(t, "export {"@) || begins(t, "export{"@) {
                lemma_entries_keep_imports(
                    Parts { imports: with_specifier(p.imports, spec), ..p },
                    braced_entries(t),
                    Some(spec),
                );
                lemma_entries_keep_imports(p, braced_entries(t), None);
            } else if begins(t, "export default "@) {
            } else if exports_declaration(t) {
                let rest = t.skip(7);
                lemma_patterns_keep_imports(
                    Parts { out: p.out + rest + seq!['\n'], ..p },
                    braced_entries(declared(rest)),
                );
            }
        }
    }
}

/// The modules that a rewritten module imports are those that its statements name, in order.
pub proof fn law_imports_are_listed_in_order(src: Seq<char>)
    requires
        rewritten(src) is Some,
    ensures
        rewritten(src)->0.imports == named_modules(statements(without_comments(src))),
{
    lemma_named_modules(statements(without_comments(src)));
}

/// A statement names the module whose specifier stands in quotes behind its last ` from `.
#[verifier::rlimit(40)]
pub proof fn law_from_names_the_module(
    head: Seq<char>,
    quote: char,
    spec: Seq<char>,
    clause: Seq<char>,
)
    requires
        quote == '"' || quote == '\'',
        !spec.contains(quote),
        !contains_text(seq![quote] + spec + seq![quote] + clause, " from "@),
    ensures
        specifier(head + " from "@ + (seq![quote] + spec + seq![quote] + clause)) == Some(spec),
{
    reveal_strlit(" from ");
    let tail = seq![quote] + spec + seq![quote] + clause;
    let s = head + " from "@ + tail;
    let p = head.len() as int;
    let m = p + 6;
    let e = m + 1 + spec.len();
    assert(s.subrange(p, p + 6) =~= " from "@);
    assert forall|k: int| p < k <= s.len() implies !occurs_at(s, " from "@, k) by {
        if occurs_at(s, " from "@, k) {
            let w = s.subrange(k, k + 6);
            assert(w[0] == ' ' && w[1] == 'f');
            assert(w[0] == s[k] && w[1] == s[k + 1]);
            if k < p + 6 {
                assert(s[k] == " from "@[k - p]);
                assert(k == p + 5);
                assert(s[k + 1] == tail[0]);
            } else {
                assert(tail.subrange(k - m, k - m + 6) =~= w);
                assert(occurs_at(tail, " from "@, k - m));
            }
        }
    }
    lemma_last_upto(s, " from "@, s.len() as int);
    assert(occurs_at(s, " from "@, p));
    assert(s[m] == tail[0]);
    assert(s[e] == tail[e - m]);
    assert(s.subrange(m + 1, e) =~= spec);
    lemma_literal(s, m, m, spec);
}

/// No imported specifier is empty.
pub proof fn law_imports_are_named(src: Seq<char>, i: int)
    requires
        rewritten(src) is Some,
        0 <= i < rewritten(src)->0.imports.len(),
    ensures
        rewritten(src)->0.imports[i].len() > 0,
{
    lemma_statements(statements(without_comments(src)));
}

/// The name `n` gets its value: as a live re-export, as the namespace of a star export, or by an assignment.
pub open spec fn is_provided(p: Parts, n: Seq<char>) -> bool {
    ||| exists|i: int| 0 <= i < p.reexports.len() && (#[trigger] p.reexports[i]).0 == n
    ||| exists|i: int| 0 <= i < p.stars.len() && (#[trigger] p.stars[i]).1 == Some(n)
    ||| contains_text(p.exports_out, "__ns["@ + quoted(n) + "] = "@)
}

spec fn all_provided(p: Parts) -> bool {
    forall|i: int| 0 <= i < p.export_names.len() ==> is_provided(p, #[trigger] p.export_names[i])
}

/// `q` has all that `p` gives values to names with.
spec fn goes_on(p: Parts, q: Parts) -> bool {
    &&& p.reexports.is_prefix_of(q.reexports)
    &&& p.stars.is_prefix_of(q.stars)
    &&& p.exports_out.is_prefix_of(q.exports_out)
}

proof fn lemma_goes_on(p: Parts, q: Parts, n: Seq<char>)
    requires
        goes_on(p, q),
        is_provided(p, n),
    ensures
        is_provided(q, n),
{
    let w = "__ns["@ + quoted(n) + "] = "@;
    if contains_text(p.exports_out, w) {
        let k = choose|k: int| occurs_at(p.exports_out, w, k);
        assert(q.exports_out.subrange(k, k + w.len()) =~= w) by {
            assert forall|j: int| 0 <= j < w.len() implies q.exports_out.subrange(
                k,
                k + w.len(),
            )[j] == w[j] by {
                assert(p.exports_out.subrange(k, k + w.len())[j] == w[j]);
                assert(p.exports_out[k + j] == q.exports_out[k + j]);
            }
        }
        assert(occurs_at(q.exports_out, w, k));
    } else if exists|i: int| 0 <= i < p.reexports.len() && (#[trigger] p.reexports[i]).0 == n {
        let i = choose|i: int| 0 <= i < p.reexports.len() && (#[trigger] p.reexports[i]).0 == n;
        assert(q.reexports[i] == p.reexports[i]);
    } else {
        let i = choose|i: int| 0 <= i < p.stars.len() && (#[trigger] p.stars[i]).1 == Some(n);
        assert(q.stars[i] == p.stars[i]);
    }
}

proof fn lemma_assigned(p: Parts, n: Seq<char>, before: Seq<char>, expr: Seq<char>)
    requires
        p.exports_out == before + export_text(quoted(n), expr),
    ensures
        is_provided(p, n),
{
    let w = "__ns["@ + quoted(n) + "] = "@;
    let k = before.len() as int;
    assert(p.exports_out.subrange(k, k + w.len()) =~= w);
    assert(occurs_at(p.exports_out, w, k));
}

/// A step that adds at most one exported name, and provides it.
proof fn lemma_all_provided(p: Parts, q: Parts)
    requires
        all_provided(p),
        goes_on(p, q),
        q.export_names == p.export_names || q.export_names.len() > 0 && q.export_names.drop_last()
            == p.export_names && is_provided(q, q.export_names.last()),
    ensures
        all_provided(q),
{
    assert forall|i: int| 0 <= i < q.export_names.len() implies is_provided(
        q,
        #[trigger] q.export_names[i],
    ) by {
        if i < p.export_names.len() {
            if q.export_names != p.export_names {
                assert(q.export_names.drop_last()[i] == q.export_names[i]);
            }
            assert(p.export_names[i] == q.export_names[i]);
            assert(is_provided(p, p.export_names[i]));
            lemma_goes_on(p, q, p.export_names[i]);
        }
    }
}

proof fn lemma_entries_are_provided(p: Parts, list: Seq<Seq<char>>, source: Option<Seq<char>>)
    requires
        all_provided(p),
    ensures
        all_provided(with_export_entries(p, list, source)),
    decreases list.len(),
{
    if list.len() > 0 {
        lemma_entries_are_provided(p, list.drop_last(), source);
        let q = with_export_entries(p, list.drop_last(), source);
        let r = with_export_entry(q, list.last(), source);
        let (local, exported) = renamed(list.last());
        assert(r.export_names.drop_last() =~= q.export_names);
        if r.reexports.len() > q.reexports.len() {
            assert(r.reexports[r.reexports.len() - 1].0 == exported);
        } else {
            lemma_assigned(r, exported, q.exports_out, local);
        }
        lemma_all_provided(q, r);
    }
}

proof fn lemma_name_is_provided(p: Parts, name: Seq<char>)
    requires
        all_provided(p),
    ensures
        all_provided(with_exported_name(p, name)),
{
    let q = with_exported_name(p, name);
    if name.len() > 0 {
        assert(q.export_names.drop_last() =~= p.export_names);
        lemma_assigned(q, name, p.exports_out, name);
    }
    lemma_all_provided(p, q);
}

proof fn lemma_patterns_are_provided(p: Parts, list: Seq<Seq<char>>)
    requires
        all_provided(p),
    ensures
        all_provided(with_pattern_names(p, list)),
    decreases list.len(),
{
    if list.len() > 0 {
        lemma_patterns_are_provided(p, list.drop_last());
        lemma_name_is_provided(
            with_pattern_names(p, list.drop_last()),
            leading_name(pattern_local(list.last())),
        );
    }
}

proof fn lemma_statement_provides(p: Parts, line: Seq<char>)
    requires
        all_provided(p),
    ensures
        with_statement(p, line) matches Some(q) ==> all_provided(q),
{
    let t = bare(trimmed(line));
    if let Some(q) = with_statement(p, line) {
        if begins(t, "export *"@) {
            if q.export_names != p.export_names {
                assert(q.export_names.drop_last() =~= p.export_names);
                assert(q.stars[q.stars.len() - 1].1 == Some(q.export_names.last()));
            }
            lemma_all_provided(p, q);
        } else if begins(t, "import "@) || t == "import"@ {
            lemma_all_provided(p, q);
        } else if begins(t, "export {"@) || begins(t, "export{"@) {
            let spec = specifier_or_empty(t);
            let r = Parts { imports: with_specifier(p.imports, spec), ..p };
            lemma_all_provided(p, r);
            lemma_entries_are_provided(r, braced_entries(t), Some(spec));
            lemma_entries_are_provided(p, braced_entries(t), None);
        } else if begins(t, "export default "@) {
            assert(q.export_names.drop_last() =~= p.export_names);
            reveal_strlit("default");
            reveal_strlit("__ns[");
            reveal_strlit("] = ");
            reveal_strlit(";\n");
            reveal_strlit("__v8jsc_default");
            reveal_strlit("__ns[\"default\"] = __v8jsc_default;\n");
            assert(quoted("default"@) =~= seq!['"', 'd', 'e', 'f', 'a', 'u', 'l', 't', '"']);
            assert("__ns[\"default\"] = __v8jsc_default;\n"@ =~= export_text(
                quoted("default"@),
                "__v8jsc_default"@,
            ));
            lemma_assigned(q, "default"@, p.exports_out, "__v8jsc_default"@);
            lemma_all_provided(p, q);
        } else if exports_declaration(t) {
            let rest = t.skip(7);
            let after = declared(rest);
            let r = Parts { out: p.out + rest + seq!['\n'], ..p };
            lemma_all_provided(p, r);
            lemma_patterns_are_provided(r, braced_entries(after));
            lemma_name_is_provided(r, leading_name(after));
        } else {
            lemma_all_provided(p, q);
        }
    }
}

/// Every name that the statements of a module export gets its value in the script.
pub proof fn law_exports_are_provided(lines: Seq<Seq<char>>, i: int)
    requires
        with_statements(lines) is Some,
        0 <= i < with_statements(lines)->0.export_names.len(),
    ensures
        is_provided(with_statements(lines)->0, with_statements(lines)->0.export_names[i]),
{
    lemma_statements_provide(lines);
}

proof fn lemma_statements_provide(lines: Seq<Seq<char>>)
    ensures
        with_statements(lines) matches Some(p) ==> all_provided(p),
    decreases lines.len(),
{
    if lines.len() > 0 {
        lemma_statements_provide(lines.drop_last());
        if let Some(p) = with_statements(lines.drop_last()) {
            lemma_statement_provides(p, lines.last());
        }
    }
}

/// The words that declare something.
pub open spec fn is_declaring(word: Seq<char>) -> bool {
    ||| word == "const "@
    ||| word == "let "@
    ||| word == "var "@
    ||| word == "async function "@
    ||| word == "function "@
    ||| word == "class "@
}

/// `t` begins with a word that declares something.
pub open spec fn begins_declaration(t: Seq<char>) -> bool {
    ||| begins(t, "const "@)
    ||| begins(t, "let "@)
    ||| begins(t, "var "@)
    ||| begins(t, "async function "@)
    ||| begins(t, "function "@)
    ||| begins(t, "class "@)
}

proof fn lemma_begins(s: Seq<char>, p: Seq<char>, i: int)
    requires
        0 <= i < p.len(),
        s.len() > i,
        s[i] != p[i],
    ensures
        !begins(s, p),
        without_prefixes(s, p) == s,
{
    if begins(s, p) {
        assert(s.subrange(0, p.len() as int)[i] == p[i]);
    }
}

/// The words that declare something, letter by letter.
pub proof fn lemma_reveal_declaring()
    ensures
        "const "@ =~= seq!['c', 'o', 'n', 's', 't', ' '],
        "let "@ =~= seq!['l', 'e', 't', ' '],
        "var "@ =~= seq!['v', 'a', 'r', ' '],
        "async function "@ =~= seq![
            'a', 's', 'y', 'n', 'c', ' ', 'f', 'u', 'n', 'c', 't', 'i', 'o', 'n', ' ',
        ],
        "function "@ =~= seq!['f', 'u', 'n', 'c', 't', 'i', 'o', 'n', ' '],
        "class "@ =~= seq!['c', 'l', 'a', 's', 's', ' '],
{
    reveal_strlit("const ");
    reveal_strlit("let ");
    reveal_strlit("var ");
    reveal_strlit("async function ");
    reveal_strlit("function ");
    reveal_strlit("class ");
}

proof fn lemma_word_taken(s: Seq<char>, word: Seq<char>, u: Seq<char>)
    requires
        s == word + u,
        word.len() > 0,
        !begins(u, word),
    ensures
        without_prefixes(s, word) == u,
{
    assert(s.subrange(0, word.len() as int) =~= word);
    assert(s.skip(word.len() as int) =~= u);
    reveal_with_fuel(without_prefixes, 2);
}

/// The words that declare something are taken off what they declare.
pub proof fn lemma_declared(word: Seq<char>, u: Seq<char>)
    requires
        is_declaring(word),
        !begins_declaration(u),
    ensures
        declared(word + u) == u,
{
    lemma_reveal_declaring();
    let s = word + u;
    assert(s[0] == word[0] && s[1] == word[1]);
    lemma_word_taken(s, word, u);
    if word != "const "@ {
        if word == "class "@ {
            lemma_begins(s, "const "@, 1);
        } else {
            lemma_begins(s, "const "@, 0);
        }
        if word != "let "@ {
            lemma_begins(s, "let "@, 0);
            if word != "var "@ {
                lemma_begins(s, "var "@, 0);
                if word != "async function "@ {
                    lemma_begins(s, "async function "@, 0);
                    if word != "function "@ {
                        lemma_begins(s, "function "@, 0);
                    }
                }
            }
        }
    }
}

proof fn lemma_leading_name(name: Seq<char>, tail: Seq<char>)
    requires
        forall|i: int| 0 <= i < name.len() ==> is_name_char(#[trigger] name[i]),
        tail.len() > 0 ==> !is_name_char(tail[0]),
    ensures
        leading_name(name + tail) == name,
    decreases name.len(),
{
    if name.len() == 0 {
        assert(name + tail =~= tail);
    } else {
        assert(is_name_char(name[0]));
        assert((name + tail).skip(1) =~= name.skip(1) + tail);
        assert forall|i: int| 0 <= i < name.skip(1).len() implies is_name_char(
            #[trigger] name.skip(1)[i],
        ) by {
            assert(is_name_char(name[i + 1]));
        }
        lemma_leading_name(name.skip(1), tail);
        assert(seq![name[0]] + name.skip(1) =~= name);
    }
}

/// An exported declaration is taken for nothing else.
pub proof fn lemma_export_word(word: Seq<char>, u: Seq<char>)
    requires
        is_declaring(word),
    ensures
        ({
            let t = "export "@ + word + u;
            &&& bare(t) == t
            &&& !begins(t, "export *"@)
            &&& !begins(t, "import "@)
            &&& t != "import"@
            &&& !begins(t, "export {"@)
            &&& !begins(t, "export{"@)
            &&& !begins(t, "export default "@)
            &&& exports_declaration(t)
            &&& t.skip(7) == word + u
        }),
{
    lemma_reveal_declaring();
    reveal_strlit("export ");
    reveal_strlit("/*");
    reveal_strlit("import");
    reveal_strlit("export *");
    reveal_strlit("import ");
    reveal_strlit("export {");
    reveal_strlit("export{");
    reveal_strlit("export default ");
    let t = "export "@ + word + u;
    assert(t.skip(7) =~= word + u);
    assert(t[0] == 'e' && t[1] == 'x' && t[6] == ' ' && t[7] == word[0]);
    lemma_begins(t, "/*"@, 0);
    lemma_begins(t, "export *"@, 7);
    lemma_begins(t, "import "@, 0);
    lemma_begins(t, "export {"@, 7);
    lemma_begins(t, "export{"@, 6);
    lemma_begins(t, "export default "@, 7);
    if word == "const "@ {
        reveal_strlit("export const ");
        assert(t.subrange(0, 13) =~= "export const "@);
    } else if word == "let "@ {
        reveal_strlit("export let ");
        assert(t.subrange(0, 11) =~= "export let "@);
    } else if word == "var "@ {
        reveal_strlit("export var ");
        assert(t.subrange(0, 11) =~= "export var "@);
    } else if word == "async function "@ {
        reveal_strlit("export async function ");
        assert(t.subrange(0, 22) =~= "export async function "@);
    } else if word == "function "@ {
        reveal_strlit("export function ");
        assert(t.subrange(0, 16) =~= "export function "@);
    } else {
        reveal_strlit("export class ");
        assert(t.subrange(0, 13) =~= "export class "@);
    }
}

/// An exported declaration stays in the script, and the name that it declares is exported. The words that
/// declare something are no names.
pub proof fn law_declaration_is_exported(
    p: Parts,
    line: Seq<char>,
    word: Seq<char>,
    name: Seq<char>,
    tail: Seq<char>,
)
    requires
        is_declaring(word),
        name.len() > 0,
        !is_white(name[0]),
        forall|i: int| 0 <= i < name.len() ==> is_name_char(#[trigger] name[i]),
        tail.len() > 0 ==> !is_name_char(tail[0]),
        !begins_declaration(name + tail),
        trimmed(line) == "export "@ + word + (name + tail),
    ensures
        with_statement(p, line) == Some(
            Parts {
                out: p.out + (word + (name + tail)) + seq!['\n'],
                export_names: p.export_names.push(name),
                exports_out: p.exports_out + export_text(quoted(name), name),
                ..p
            },
        ),
{
    let u = name + tail;
    lemma_export_word(word, u);
    lemma_declared(word, u);
    lemma_leading_name(name, tail);
    assert(u[0] == name[0]);
    assert(is_name_char(name[0]));
}

/// The parts with `entry` of an export list as a live re-export of `name` from `spec`.
pub open spec fn with_reexport(
    p: Parts,
    entry: Seq<char>,
    spec: Seq<char>,
    name: Seq<char>,
) -> Parts {
    Parts {
        export_names: p.export_names.push(renamed(entry).1),
        reexports: p.reexports.push((renamed(entry).1, spec, name)),
        ..p
    }
}

/// A default import or a namespace import that is exported again is a live re-export: no value is copied.
pub proof fn law_imported_name_is_live(p: Parts, t: Seq<char>, entry: Seq<char>)
    requires
        !import_clause(t).contains('{'),
        renamed(entry).0.len() > 0,
        renamed(entry).0 == if begins(import_clause(t), "* as "@) {
            trimmed(import_clause(t).skip(5))
        } else {
            import_clause(t)
        },
    ensures
        ({
            let q = with_import(p, t);
            with_export_entry(q, entry, None) == with_reexport(
                q,
                entry,
                specifier_or_empty(t),
                if begins(import_clause(t), "* as "@) {
                    "*"@
                } else {
                    "default"@
                },
            )
        }),
{
    let q = with_import(p, t);
    assert(bound(q.bindings, renamed(entry).0) is Some);
}

/// A name in the braces of an import that is exported again is a live re-export, unless another name in
/// the braces behind it is called the same.
pub proof fn law_listed_name_is_live(p: Parts, t: Seq<char>, i: int, entry: Seq<char>)
    requires
        import_clause(t).contains('{'),
        0 <= i < braced_entries(t).len(),
        renamed(entry).0 == renamed(braced_entries(t)[i]).1,
        forall|j: int|
            i < j < braced_entries(t).len() ==> renamed(#[trigger] braced_entries(t)[j]).1
                != renamed(entry).0,
    ensures
        ({
            let q = with_import(p, t);
            with_export_entry(q, entry, None) == with_reexport(
                q,
                entry,
                specifier_or_empty(t),
                renamed(braced_entries(t)[i]).0,
            )
        }),
{
    let q = with_import(p, t);
    let spec = specifier_or_empty(t);
    let listed = list_bindings(braced_entries(t), spec);
    let k = q.bindings.len() - listed.len();
    assert forall|j: int| 0 <= j < listed.len() implies #[trigger] q.bindings[k + j]
        == listed[j] by {}
    assert forall|j: int| k + i < j < q.bindings.len() implies (#[trigger] q.bindings[j]).0
        != renamed(entry).0 by {
        assert(q.bindings[k + (j - k)] == listed[j - k]);
        assert(renamed(braced_entries(t)[j - k]).1 != renamed(entry).0);
    }
    assert(q.bindings[k + i] == listed[i]);
    lemma_bound_at(q.bindings, renamed(entry).0, k + i);
}

proof fn lemma_bound_at(bindings: Seq<Binding>, name: Seq<char>, i: int)
    requires
        0 <= i < bindings.len(),
        bindings[i].0 == name,
        forall|j: int| i < j < bindings.len() ==> (#[trigger] bindings[j]).0 != name,
    ensures
        bound(bindings, name) == Some((bindings[i].1, bindings[i].2)),
    decreases bindings.len(),
{
    if i < bindings.len() - 1 {
        assert(bindings[bindings.len() - 1].0 != name);
        assert forall|j: int| i < j < bindings.drop_last().len() implies (
        #[trigger] bindings.drop_last()[j]).0 != name by {
            assert(bindings[j].0 != name);
        }
        lemma_bound_at(bindings.drop_last(), name, i);
    }
}

/// A line that the rewriter leaves alone: stripped of what may stand before it, it begins with
/// neither `import` nor `export`.
pub open spec fn untouched(line: Seq<char>) -> bool {
    let t = bare(trimmed(line));
    !begins(t, "import"@) && !begins(t, "export"@)
}

/// The lines with a line feed behind each.
pub open spec fn with_line_feeds(lines: Seq<Seq<char>>) -> Seq<char>
    decreases lines.len(),
{
    if lines.len() == 0 {
        seq![]
    } else {
        with_line_feeds(lines.drop_last()) + lines.last() + seq!['\n']
    }
}

proof fn lemma_longer_prefix(t: Seq<char>, p: Seq<char>, q: Seq<char>)
    requires
        begins(t, q),
        begins(q, p),
    ensures
        begins(t, p),
{
    assert(t.subrange(0, p.len() as int) =~= t.subrange(0, q.len() as int).subrange(
        0,
        p.len() as int,
    ));
}

proof fn lemma_untouched(p: Parts, line: Seq<char>)
    requires
        untouched(line),
    ensures
        with_statement(p, line) == Some(Parts { out: p.out + line + seq!['\n'], ..p }),
{
    let t = bare(trimmed(line));
    reveal_strlit("import");
    reveal_strlit("export");
    reveal_strlit("export *");
    reveal_strlit("import ");
    reveal_strlit("export {");
    reveal_strlit("export{");
    reveal_strlit("export default ");
    reveal_strlit("export const ");
    reveal_strlit("export let ");
    reveal_strlit("export var ");
    reveal_strlit("export function ");
    reveal_strlit("export async function ");
    reveal_strlit("export class ");
    if t == "import"@ {
        assert(t.subrange(0, 6) =~= "import"@);
    }
    if begins(t, "import "@) {
        lemma_longer_prefix(t, "import"@, "import "@);
    }
    if begins(t, "export *"@) {
        lemma_longer_prefix(t, "export"@, "export *"@);
    }
    if begins(t, "export {"@) {
        lemma_longer_prefix(t, "export"@, "export {"@);
    }
    if begins(t, "export{"@) {
        lemma_longer_prefix(t, "export"@, "export{"@);
    }
    if begins(t, "export default "@) {
        lemma_longer_prefix(t, "export"@, "export default "@);
    }
    if begins(t, "export const "@) {
        lemma_longer_prefix(t, "export"@, "export const "@);
    }
    if begins(t, "export let "@) {
        lemma_longer_prefix(t, "export"@, "export let "@);
    }
    if begins(t, "export var "@) {
        lemma_longer_prefix(t, "export"@, "export var "@);
    }
    if begins(t, "export function "@) {
        lemma_longer_prefix(t, "export"@, "export function "@);
    }
    if begins(t, "export async function "@) {
        lemma_longer_prefix(t, "export"@, "export async function "@);
    }
    if begins(t, "export class "@) {
        lemma_longer_prefix(t, "export"@, "export class "@);
    }
}

/// A module without imports and exports keeps its statements: the script is its lines, with
/// `import.meta` replaced, and it exports and imports nothing.
pub proof fn law_plain_module_is_kept(src: Seq<char>)
    requires
        forall|i: int|
            0 <= i < statements(without_comments(src)).len() ==> untouched(
                #[trigger] statements(without_comments(src))[i],
            ),
    ensures
        rewritten(src) == Some(
            Rewritten {
                body: replaced(
                    with_line_feeds(statements(without_comments(src))),
                    "import.meta"@,
                    "__v8jsc_meta"@,
                ),
                export_names: seq![],
                imports: seq![],
                is_async: awaits(src),
                reexports: seq![],
            },
        ),
{
    let lines = statements(without_comments(src));
    lemma_untouched_all(lines);
    let p = no_parts();
    let text = with_line_feeds(lines);
    assert(p.imports_out + text + (p.exports_out + star_texts(p.stars)) =~= text);
}

proof fn lemma_untouched_all(lines: Seq<Seq<char>>)
    requires
        forall|i: int| 0 <= i < lines.len() ==> untouched(#[trigger] lines[i]),
    ensures
        with_statements(lines) == Some(Parts { out: with_line_feeds(lines), ..no_parts() }),
    decreases lines.len(),
{
    if lines.len() > 0 {
        lemma_untouched_all(lines.drop_last());
        let p = Parts { out: with_line_feeds(lines.drop_last()), ..no_parts() };
        assert(untouched(lines[lines.len() - 1]));
        lemma_untouched(p, lines.last());
    }
}

} // verus!
