//! What each shape of import and export statement becomes, word for word.

use crate::jsc::comments::{law_no_slash_is_kept, without_comments};
use crate::jsc::rewrite::{
    bound, braced_entries, clause_head, entries, import_clause, no_parts, pattern, pattern_local,
    patterns, renamed, rewritten, specifier, star_name, star_text, star_texts, string_triples,
    with_export_entries, with_export_entry, with_pattern_names, with_statement, with_statements,
    Parts,
};
use crate::jsc::rewrite_laws::{lemma_declared, lemma_export_word, lemma_reveal_declaring};
use crate::jsc::statements::{bare, opens_list, statements, statements_from};
use crate::jsc::top_level_await::awaits;
use crate::specifier::law_literals;
use crate::text::{
    begins, char_from, contains_text, first_from, is_white, joined, leading_name, lemma_char_from,
    lemma_first_from, occurs_at, pieces_of, quoted, replaced, trimmed, trimmed_start,
    without_trailing,
};
use crate::text_laws::{
    all_white, law_leading_name, law_lines, law_pieces, law_search, law_search_character,
    law_search_from_the_end, law_trimmed, law_trimmed_start,
};
use vstd::prelude::*;

verus! {

/// `s` neither begins nor ends with white space, and is not empty.
pub open spec fn is_stripped(s: Seq<char>) -> bool {
    s.len() > 0 && !is_white(s[0]) && !is_white(s.last())
}

/// No white space stands in `s`.
pub open spec fn is_word(s: Seq<char>) -> bool {
    s.len() > 0 && forall|i: int| 0 <= i < s.len() ==> !is_white(#[trigger] s[i])
}

proof fn lemma_differs(s: Seq<char>, p: Seq<char>, i: int)
    requires
        0 <= i < p.len(),
        i < s.len(),
        s[i] != p[i],
    ensures
        !begins(s, p),
{
    if begins(s, p) {
        assert(s.subrange(0, p.len() as int)[i] == p[i]);
    }
}

proof fn lemma_begins_with(p: Seq<char>, rest: Seq<char>)
    ensures
        begins(p + rest, p),
        (p + rest).skip(p.len() as int) == rest,
{
    assert((p + rest).subrange(0, p.len() as int) =~= p);
    assert((p + rest).skip(p.len() as int) =~= rest);
}

proof fn lemma_words()
    ensures
        "export *"@ =~= seq!['e', 'x', 'p', 'o', 'r', 't', ' ', '*'],
        "import "@ =~= seq!['i', 'm', 'p', 'o', 'r', 't', ' '],
        "import"@ =~= seq!['i', 'm', 'p', 'o', 'r', 't'],
        "export {"@ =~= seq!['e', 'x', 'p', 'o', 'r', 't', ' ', '{'],
        "export{"@ =~= seq!['e', 'x', 'p', 'o', 'r', 't', '{'],
        "export default "@ =~= seq![
            'e', 'x', 'p', 'o', 'r', 't', ' ', 'd', 'e', 'f', 'a', 'u', 'l', 't', ' ',
        ],
{
    reveal_strlit("export *");
    reveal_strlit("import ");
    reveal_strlit("import");
    reveal_strlit("export {");
    reveal_strlit("export{");
    reveal_strlit("export default ");
}

/// The exported expression of `export default` stands in the script as it is, bound to a constant whose value
/// is exported under the name `default`.
pub proof fn law_default_export_is_kept(p: Parts, line: Seq<char>, e: Seq<char>)
    requires
        bare(trimmed(line)) == "export default "@ + e,
    ensures
        with_statement(p, line) == Some(
            Parts {
                out: p.out + ("const __v8jsc_default = "@ + e + "\n"@),
                exports_out: p.exports_out + "__ns[\"default\"] = __v8jsc_default;\n"@,
                export_names: p.export_names.push("default"@),
                ..p
            },
        ),
{
    let t = "export default "@ + e;
    lemma_words();
    reveal_strlit("\n");
    lemma_differs(t, "export *"@, 7);
    lemma_differs(t, "import "@, 0);
    assert(t[0] != "import"@[0]);
    lemma_differs(t, "export {"@, 7);
    lemma_differs(t, "export{"@, 6);
    lemma_begins_with("export default "@, e);
    assert(p.out + "const __v8jsc_default = "@ + e + seq!['\n'] =~= p.out + (
    "const __v8jsc_default = "@ + e + "\n"@));
}

/// Two default exports whose expressions differ become scripts that differ: the script shows what was
/// exported.
pub proof fn law_default_exports_differ(p: Parts, a: Seq<char>, b: Seq<char>, e: Seq<char>, f: Seq<char>)
    requires
        bare(trimmed(a)) == "export default "@ + e,
        bare(trimmed(b)) == "export default "@ + f,
        with_statement(p, a) is Some && with_statement(p, b) is Some,
        with_statement(p, a)->0.out == with_statement(p, b)->0.out,
    ensures
        e == f,
{
    law_default_export_is_kept(p, a, e);
    law_default_export_is_kept(p, b, f);
    reveal_strlit("\n");
    let n = (p.out + "const __v8jsc_default = "@).len() as int;
    let x = p.out + ("const __v8jsc_default = "@ + e + "\n"@);
    let y = p.out + ("const __v8jsc_default = "@ + f + "\n"@);
    assert(x.len() == n + e.len() + 1);
    assert(y.len() == n + f.len() + 1);
    assert forall|i: int| 0 <= i < e.len() implies e[i] == f[i] by {
        assert(x[n + i] == e[i]);
        assert(y[n + i] == f[i]);
    }
    assert(e =~= f);
}

/// White space before a statement does not change what it is taken for.
pub proof fn law_indented_statement(blank: Seq<char>, rest: Seq<char>)
    requires
        all_white(blank),
        rest.len() > 0,
        !is_white(rest[0]),
        !begins(rest, "/*"@),
    ensures
        bare(blank + rest) == rest,
{
    law_trimmed_start(blank, rest);
}

/// A block comment before a statement does not change what it is taken for.
pub proof fn law_commented_statement(blank: Seq<char>, text: Seq<char>, rest: Seq<char>)
    requires
        all_white(blank),
        !contains_text(text + seq!['*'], "*/"@),
    ensures
        bare(blank + ("/*"@ + text + "*/"@ + rest)) == bare(rest),
{
    let t = "/*"@ + text + "*/"@ + rest;
    let n: int = 2 + text.len() as int;
    reveal_strlit("/*");
    reveal_strlit("*/");
    law_trimmed_start(blank, t);
    assert(t.subrange(0, 2) =~= "/*"@);
    lemma_comment_end(text, rest);
    assert(t.skip(n + 2) =~= rest);
}

proof fn lemma_comment_end(text: Seq<char>, rest: Seq<char>)
    requires
        !contains_text(text + seq!['*'], "*/"@),
    ensures
        first_from("/*"@ + text + "*/"@ + rest, "*/"@, 2) == Some(2 + text.len() as int),
{
    let t = "/*"@ + text + "*/"@ + rest;
    let n: int = 2 + text.len() as int;
    assert(occurs_at(t, "*/"@, n)) by {
        reveal_strlit("/*");
        reveal_strlit("*/");
        assert(t.subrange(n, n + 2) =~= "*/"@);
    }
    assert forall|i: int| 2 <= i < n implies !occurs_at(t, "*/"@, i) by {
        lemma_comment_goes_on(text, rest, i);
    }
    lemma_first_from(t, "*/"@, 2);
}

proof fn lemma_comment_goes_on(text: Seq<char>, rest: Seq<char>, i: int)
    requires
        !contains_text(text + seq!['*'], "*/"@),
        2 <= i < 2 + text.len(),
    ensures
        !occurs_at("/*"@ + text + "*/"@ + rest, "*/"@, i),
{
    let t = "/*"@ + text + "*/"@ + rest;
    let w = text + seq!['*'];
    reveal_strlit("/*");
    reveal_strlit("*/");
    assert(!occurs_at(w, "*/"@, i - 2));
    assert(w.subrange(i - 2, i) =~= seq![w[i - 2], w[i - 1]]);
    assert(t.subrange(i, i + 2) =~= seq![t[i], t[i + 1]]);
    assert(w[i - 2] == t[i]);
    assert(w[i - 1] == t[i + 1]);
}

/// What an import statement imports stands between `import` and ` from `.
pub proof fn law_import_clause(before: Seq<char>, clause: Seq<char>, after: Seq<char>, rest: Seq<char>)
    requires
        all_white(before) && all_white(after),
        clause.len() > 0 ==> is_stripped(clause),
        forall|i: int|
            0 <= i < (before + clause + after).len() ==> !occurs_at(
                before + clause + after + " from "@ + rest,
                " from "@,
                i,
            ),
    ensures
        import_clause("import"@ + (before + clause + after + " from "@ + rest)) == clause,
{
    let u = before + clause + after;
    let s = u + " from "@ + rest;
    reveal_strlit("import");
    reveal_strlit(" from ");
    lemma_begins_with("import"@, s);
    law_search(u, " from "@, rest);
    assert(s.take(u.len() as int) =~= u);
    law_trimmed(before, clause, after);
}

/// The namespace object of the module `spec` in the script.
pub open spec fn looked_up(spec: Seq<char>) -> Seq<char> {
    "((globalThis.__v8jsc_modules||{})["@ + quoted(spec) + "]||{})"@
}

proof fn lemma_import_statement(t: Seq<char>)
    requires
        begins(t, "import "@),
    ensures
        !begins(t, "export *"@),
{
    lemma_words();
    assert(t.subrange(0, 7)[0] == t[0]);
    lemma_differs(t, "export *"@, 0);
}

/// `import name from "spec"` becomes a constant that holds the default export of the module.
pub proof fn law_default_import(p: Parts, line: Seq<char>, name: Seq<char>, spec: Seq<char>)
    requires
        begins(bare(trimmed(line)), "import "@),
        import_clause(bare(trimmed(line))) == name,
        specifier(bare(trimmed(line))) == Some(spec),
        spec.len() > 0,
        is_word(name),
        !name.contains('{'),
    ensures
        with_statement(p, line) == Some(
            Parts {
                imports_out: p.imports_out + ("const "@ + name + " = "@ + (looked_up(spec)
                    + ".default"@) + ";\n"@),
                imports: p.imports.push(spec),
                bindings: p.bindings.push((name, spec, "default"@)),
                ..p
            },
        ),
{
    let t = bare(trimmed(line));
    lemma_import_statement(t);
    reveal_strlit("* as ");
    if begins(name, "* as "@) {
        assert(name.subrange(0, 5)[1] == name[1]);
        assert(is_white(name[1]));
    }
}

/// `import * as name from "spec"` becomes a constant that holds the namespace of the module.
pub proof fn law_namespace_import(p: Parts, line: Seq<char>, name: Seq<char>, spec: Seq<char>)
    requires
        begins(bare(trimmed(line)), "import "@),
        import_clause(bare(trimmed(line))) == "* as "@ + name,
        specifier(bare(trimmed(line))) == Some(spec),
        spec.len() > 0,
        is_stripped(name),
        !name.contains('{'),
    ensures
        with_statement(p, line) == Some(
            Parts {
                imports_out: p.imports_out + ("const "@ + name + " = "@ + looked_up(spec) + ";\n"@),
                imports: p.imports.push(spec),
                bindings: p.bindings.push((name, spec, "*"@)),
                ..p
            },
        ),
{
    let t = bare(trimmed(line));
    let clause = "* as "@ + name;
    lemma_import_statement(t);
    reveal_strlit("* as ");
    if clause.contains('{') {
        let i = choose|i: int| 0 <= i < clause.len() && clause[i] == '{';
        assert(name[i - 5] == '{');
    }
    lemma_begins_with("* as "@, name);
    law_trimmed(seq![], name, seq![]);
    assert(seq![] + name + seq![] =~= name);
}

/// `import "spec"` names the module and adds nothing else.
pub proof fn law_bare_import(p: Parts, line: Seq<char>, spec: Seq<char>)
    requires
        begins(bare(trimmed(line)), "import "@),
        !contains_text(bare(trimmed(line)).skip(6), " from "@),
        specifier(bare(trimmed(line))) == Some(spec),
        spec.len() > 0,
    ensures
        with_statement(p, line) == Some(Parts { imports: p.imports.push(spec), ..p }),
{
    let t = bare(trimmed(line));
    lemma_import_statement(t);
    law_search(t.skip(6), " from "@, seq![]);
    reveal_strlit(" from ");
    reveal_strlit("* as ");
    assert(import_clause(t) =~= seq![]);
}

/// `import head, { list } from "spec"` becomes a constant for the default export, and one that takes the
/// listed names out of the namespace.
pub proof fn law_list_import(p: Parts, line: Seq<char>, head: Seq<char>, spec: Seq<char>)
    requires
        begins(bare(trimmed(line)), "import "@),
        import_clause(bare(trimmed(line))).contains('{'),
        clause_head(import_clause(bare(trimmed(line)))) == head,
        specifier(bare(trimmed(line))) == Some(spec),
        spec.len() > 0,
    ensures
        ({
            let list = braced_entries(bare(trimmed(line)));
            let r = with_statement(p, line)->0;
            &&& with_statement(p, line) is Some
            &&& r.imports == p.imports.push(spec)
            &&& r.imports_out == p.imports_out + (if head.len() == 0 {
                seq![]
            } else {
                "const "@ + head + " = "@ + (looked_up(spec) + ".default"@) + ";\n"@
            }) + ("const { "@ + joined(patterns(list), ", "@) + " } = "@ + looked_up(spec) + ";\n"@)
            &&& r.bindings.len() == p.bindings.len() + (if head.len() == 0 {
                0int
            } else {
                1
            }) + list.len()
            &&& r.bindings.take(p.bindings.len() as int) == p.bindings
            &&& head.len() > 0 ==> r.bindings[p.bindings.len() as int] == (head, spec, "default"@)
            &&& forall|i: int|
                0 <= i < list.len() ==> r.bindings[r.bindings.len() - list.len() + i] == (
                    renamed(#[trigger] list[i]).1,
                    spec,
                    renamed(list[i]).0,
                )
            &&& r.out == p.out && r.exports_out == p.exports_out
            &&& r.export_names == p.export_names && r.reexports == p.reexports && r.stars == p.stars
        }),
{
    let t = bare(trimmed(line));
    lemma_import_statement(t);
    let r = with_statement(p, line)->0;
    assert(r.bindings.take(p.bindings.len() as int) =~= p.bindings);
    if head.len() == 0 {
        assert(p.imports_out + Seq::<char>::empty() =~= p.imports_out);
    }
}

/// The name before the braces of an import clause, without the comma behind it.
pub proof fn law_clause_head(head: Seq<char>, blank: Seq<char>, more: Seq<char>, rest: Seq<char>)
    requires
        all_white(blank) && all_white(more),
        is_stripped(head),
        head.last() != ',',
        !head.contains('{'),
    ensures
        clause_head(head + blank + seq![','] + more + seq!['{'] + rest) == head,
        clause_head(seq!['{'] + rest) == Seq::<char>::empty(),
{
    let u = head + blank + seq![','] + more;
    let s = u + seq!['{'] + rest;
    assert forall|i: int| 0 <= i < u.len() implies u[i] != '{' by {
        if i < head.len() {
            assert(u[i] == head[i]);
        } else if i < head.len() + blank.len() {
            assert(u[i] == blank[i - head.len()]);
            assert(is_white(blank[i - head.len()]));
        } else if i > head.len() + blank.len() {
            assert(u[i] == more[i - head.len() - blank.len() - 1]);
            assert(is_white(more[i - head.len() - blank.len() - 1]));
        }
    }
    law_search_character(u, '{', rest);
    assert(s.take(u.len() as int) =~= u);
    let m = head + blank + seq![','];
    assert(u =~= seq![] + m + more);
    assert(m[0] == head[0] && m.last() == ',');
    law_trimmed(seq![], m, more);
    lemma_trailing_comma(head, blank);
    let t = seq!['{'] + rest;
    law_search_character(seq![], '{', rest);
    assert(seq![] + seq!['{'] + rest =~= t);
    assert(t.take(0) =~= seq![]);
    law_trimmed(seq![], seq![], seq![]);
    assert(Seq::<char>::empty() + Seq::<char>::empty() + Seq::<char>::empty() =~= Seq::<char>::empty());
}

proof fn lemma_trailing_comma(head: Seq<char>, blank: Seq<char>)
    requires
        all_white(blank),
        is_stripped(head),
        head.last() != ',',
    ensures
        trimmed(without_trailing(head + blank + seq![','], ',')) == head,
{
    let u = head + blank;
    assert((u + seq![',']).drop_last() =~= u);
    if blank.len() > 0 {
        assert(u.last() == blank[blank.len() - 1]);
        assert(is_white(blank[blank.len() - 1]));
    } else {
        assert(u.last() == head.last());
    }
    assert(without_trailing(u, ',') == u);
    assert(u =~= seq![] + head + blank);
    law_trimmed(seq![], head, blank);
}

/// An entry `name as other` renames; any other stands for itself. In an import list it is a property pattern.
pub proof fn law_renaming(a: Seq<char>, before: Seq<char>, after: Seq<char>, b: Seq<char>)
    requires
        all_white(before) && all_white(after),
        is_stripped(a) && is_stripped(b),
        forall|i: int|
            0 <= i < (a + before).len() ==> !occurs_at(
                a + before + " as "@ + (after + b),
                " as "@,
                i,
            ),
    ensures
        renamed(a + before + " as "@ + (after + b)) == (a, b),
        pattern(a + before + " as "@ + (after + b)) == a + ": "@ + b,
        !contains_text(a, " as "@) ==> renamed(a) == (a, a) && pattern(a) == a,
{
    let u = a + before;
    let v = after + b;
    let s = u + " as "@ + v;
    reveal_strlit(" as ");
    law_search(u, " as "@, v);
    assert(s.take(u.len() as int) =~= u);
    assert(s.skip(u.len() as int + 4) =~= v);
    assert(u =~= seq![] + a + before);
    law_trimmed(seq![], a, before);
    assert(v =~= after + b + seq![]);
    law_trimmed(after, b, seq![]);
    law_search(a, " as "@, seq![]);
}

/// What stands between the first braces is cut at its commas; each part is stripped, and empty ones are left
/// out.
pub proof fn law_braced_entries(before: Seq<char>, inner: Seq<char>, after: Seq<char>)
    requires
        !before.contains('{'),
        !inner.contains('}'),
    ensures
        braced_entries(before + seq!['{'] + (inner + seq!['}'] + after)) == entries(
            pieces_of(inner, ','),
        ),
{
    let s = before + seq!['{'] + (inner + seq!['}'] + after);
    let a = before.len() as int;
    let b = a + 1 + inner.len();
    law_search_character(before, '{', inner + seq!['}'] + after);
    lemma_char_from(s, '}', a + 1);
    assert(s[b] == '}');
    assert forall|i: int| a + 1 <= i < b implies s[i] != '}' by {
        assert(s[i] == inner[i - a - 1]);
    }
    assert(s.subrange(a + 1, b) =~= inner);
}

/// A comma parts an entry from those behind it.
pub proof fn law_entries(before: Seq<char>, name: Seq<char>, after: Seq<char>, rest: Seq<char>)
    requires
        all_white(before) && all_white(after),
        name.len() > 0 ==> is_stripped(name),
        !(before + name + after).contains(','),
    ensures
        entries(pieces_of(before + name + after + seq![','] + rest, ',')) == (if name.len() == 0 {
            seq![]
        } else {
            seq![name]
        }) + entries(pieces_of(rest, ',')),
        entries(pieces_of(before + name + after, ',')) == if name.len() == 0 {
            Seq::<Seq<char>>::empty()
        } else {
            seq![name]
        },
{
    let piece = before + name + after;
    law_pieces(piece, ',', rest);
    law_trimmed(before, name, after);
    lemma_entries_behind(piece, pieces_of(rest, ','));
    assert(seq![piece].drop_last() =~= seq![]);
    assert(entries(seq![]) =~= seq![]);
    assert(entries(seq![piece]) =~= if name.len() == 0 {
        Seq::<Seq<char>>::empty()
    } else {
        seq![name]
    });
}

proof fn lemma_entries_behind(piece: Seq<char>, rest: Seq<Seq<char>>)
    ensures
        entries(seq![piece] + rest) == entries(seq![piece]) + entries(rest),
    decreases rest.len(),
{
    let all = seq![piece] + rest;
    if rest.len() == 0 {
        assert(all =~= seq![piece]);
        assert(entries(rest) =~= seq![]);
        assert(entries(all) =~= entries(seq![piece]) + entries(rest));
    } else {
        lemma_entries_behind(piece, rest.drop_last());
        assert(all.drop_last() =~= seq![piece] + rest.drop_last());
        assert(entries(all) =~= entries(seq![piece]) + entries(rest));
    }
}

/// A listed name that is not imported is exported by assigning it to its exported name.
pub proof fn law_listed_name_is_assigned(p: Parts, entry: Seq<char>, local: Seq<char>, name: Seq<char>)
    requires
        renamed(entry) == (local, name),
        bound(p.bindings, local) is None,
    ensures
        with_export_entry(p, entry, None) == (Parts {
            export_names: p.export_names.push(name),
            exports_out: p.exports_out + ("__ns["@ + quoted(name) + "] = "@ + local + ";\n"@),
            ..p
        }),
{
}

/// A name listed before `from` is a live re-export of what the module has under the first of its names.
pub proof fn law_listed_name_is_reexported(
    p: Parts,
    entry: Seq<char>,
    local: Seq<char>,
    name: Seq<char>,
    spec: Seq<char>,
)
    requires
        renamed(entry) == (local, name),
    ensures
        with_export_entry(p, entry, Some(spec)) == (Parts {
            export_names: p.export_names.push(name),
            reexports: p.reexports.push((name, spec, local)),
            ..p
        }),
{
}

/// The entries of an export list are taken in order, one by one.
pub proof fn law_export_entries_in_order(
    p: Parts,
    list: Seq<Seq<char>>,
    entry: Seq<char>,
    source: Option<Seq<char>>,
)
    ensures
        with_export_entries(p, list.push(entry), source) == with_export_entry(
            with_export_entries(p, list, source),
            entry,
            source,
        ),
        with_export_entries(p, seq![], source) == p,
{
    assert(list.push(entry).drop_last() =~= list);
}

/// `export { list }` exports local names; `export { list } from "spec"` those of the module.
pub proof fn law_export_list(p: Parts, line: Seq<char>, rest: Seq<char>, spec: Seq<char>)
    requires
        bare(trimmed(line)) == "export {"@ + rest || bare(trimmed(line)) == "export{"@ + rest,
    ensures
        !contains_text(bare(trimmed(line)), " from "@) ==> with_statement(p, line) == Some(
            with_export_entries(p, braced_entries(bare(trimmed(line))), None),
        ),
        contains_text(bare(trimmed(line)), " from "@) && spec.len() > 0 && specifier(
            bare(trimmed(line)),
        ) == Some(spec) ==> with_statement(p, line) == Some(
            with_export_entries(
                (Parts { imports: p.imports.push(spec), ..p }),
                braced_entries(bare(trimmed(line))),
                Some(spec),
            ),
        ),
{
    let t = bare(trimmed(line));
    lemma_words();
    if t == "export {"@ + rest {
        lemma_begins_with("export {"@, rest);
        assert(t[7] == '{');
        lemma_differs(t, "export *"@, 7);
    } else {
        lemma_begins_with("export{"@, rest);
        assert(t[6] == '{');
        lemma_differs(t, "export *"@, 6);
    }
    assert(t[0] == 'e');
    lemma_differs(t, "import "@, 0);
    assert("import"@[0] != t[0]);
}

/// `export * from "spec"` names the module, and its names are exported behind all others.
pub proof fn law_star_export(p: Parts, line: Seq<char>, rest: Seq<char>, spec: Seq<char>)
    requires
        bare(trimmed(line)) == "export *"@ + rest,
        specifier(bare(trimmed(line))) == Some(spec),
        spec.len() > 0,
        !begins(trimmed_start(rest), "as "@),
    ensures
        with_statement(p, line) == Some(
            Parts { imports: p.imports.push(spec), stars: p.stars.push((spec, None)), ..p },
        ),
{
    reveal_strlit("export *");
    lemma_begins_with("export *"@, rest);
}

/// `export * as name from "spec"` exports the namespace of the module under the name.
pub proof fn law_named_star_export(
    p: Parts,
    line: Seq<char>,
    before: Seq<char>,
    name: Seq<char>,
    rest: Seq<char>,
    spec: Seq<char>,
)
    requires
        all_white(before),
        bare(trimmed(line)) == "export *"@ + (before + ("as "@ + (name + " from "@ + rest))),
        specifier(bare(trimmed(line))) == Some(spec),
        spec.len() > 0,
        is_stripped(name),
        forall|i: int|
            0 <= i < name.len() ==> !occurs_at(name + " from "@ + rest, " from "@, i),
    ensures
        with_statement(p, line) == Some(
            Parts {
                imports: p.imports.push(spec),
                export_names: p.export_names.push(name),
                stars: p.stars.push((spec, Some(name))),
                ..p
            },
        ),
{
    let w = name + " from "@ + rest;
    let u = "as "@ + w;
    reveal_strlit("export *");
    reveal_strlit("as ");
    reveal_strlit(" from ");
    lemma_begins_with("export *"@, before + u);
    law_trimmed_start(before, u);
    lemma_begins_with("as "@, w);
    law_search(name, " from "@, rest);
    assert(w.take(name.len() as int) =~= name);
    assert(seq![] + name + seq![] =~= name);
    law_trimmed(seq![], name, seq![]);
}

/// A star export that names no module is refused, and with it the whole module.
pub proof fn law_star_export_without_module(p: Parts, line: Seq<char>, rest: Seq<char>)
    requires
        bare(trimmed(line)) == "export *"@ + rest,
        specifier(bare(trimmed(line))) is None,
    ensures
        with_statement(p, line) is None,
{
    reveal_strlit("export *");
    lemma_begins_with("export *"@, rest);
}

/// The statement for a star export with a name assigns the namespace to it; that for one without defines a
/// getter for each name but `default` that is not exported yet.
pub proof fn law_star_statement(spec: Seq<char>, name: Seq<char>)
    ensures
        name.len() > 0 ==> star_text(spec, Some(name)) == "__ns["@ + quoted(name) + "] = "@
            + looked_up(spec) + ";\n"@,
        star_text(spec, None) == "{const __se="@ + looked_up(spec)
            + ";for(const __k of Object.keys(__se)){if(__k!==\"default\"&&!Object.prototype.hasOwnProperty.call(__ns,__k)){Object.defineProperty(__ns,__k,{get:((k)=>()=>__se[k])(__k),enumerable:true,configurable:true});}}}\n"@,
{
}

/// The name that an entry of a destructuring pattern declares: `name`, `key: name` or `name = value`.
pub proof fn law_pattern_local(name: Seq<char>, blank: Seq<char>, key: Seq<char>, more: Seq<char>, value: Seq<char>)
    requires
        all_white(blank) && all_white(more),
        is_stripped(name),
        !name.contains(':') && !name.contains('='),
        !key.contains(':'),
        !value.contains(':'),
    ensures
        pattern_local(name) == name,
        pattern_local(key + seq![':'] + (blank + name + more)) == name,
        pattern_local((blank + name + more) + seq!['='] + value) == name,
{
    let u = blank + name + more;
    assert forall|c: char| c == ':' || c == '=' implies !u.contains(c) by {
        if u.contains(c) {
            let i = choose|i: int| 0 <= i < u.len() && u[i] == c;
            if i < blank.len() {
                assert(is_white(blank[i]));
            } else if i < blank.len() + name.len() {
                assert(name[i - blank.len()] == c);
            } else {
                assert(is_white(more[i - blank.len() - name.len()]));
            }
        }
    }
    law_trimmed(blank, name, more);
    law_trimmed(seq![], name, seq![]);
    assert(seq![] + name + seq![] =~= name);
    law_pieces(name, ':', seq![]);
    law_pieces(name, '=', seq![]);
    law_pieces(u, ':', seq![]);
    law_pieces(u, '=', value);
    law_pieces(key, ':', u);
    assert((seq![key] + seq![u]).last() == u);
    let w = u + seq!['='] + value;
    assert(!w.contains(':')) by {
        if w.contains(':') {
            let i = choose|i: int| 0 <= i < w.len() && w[i] == ':';
            if i < u.len() {
                assert(u[i] == ':');
            } else if i > u.len() {
                assert(value[i - u.len() - 1] == ':');
            }
        }
    }
    law_pieces(w, ':', seq![]);
    assert((seq![u] + pieces_of(value, '='))[0] == u);
}

/// The names of a destructuring pattern are exported in order.
pub proof fn law_pattern_names_in_order(p: Parts, list: Seq<Seq<char>>, entry: Seq<char>)
    ensures
        ({
            let q = with_pattern_names(p, list);
            let name = leading_name(pattern_local(entry));
            with_pattern_names(p, list.push(entry)) == if name.len() == 0 {
                q
            } else {
                Parts {
                    export_names: q.export_names.push(name),
                    exports_out: q.exports_out + ("__ns["@ + quoted(name) + "] = "@ + name + ";\n"@),
                    ..q
                }
            }
        }),
        with_pattern_names(p, seq![]) == p,
{
    assert(list.push(entry).drop_last() =~= list);
}

/// An exported destructuring declaration stays in the script, and the names of its pattern are exported.
#[verifier::rlimit(30)]
pub proof fn law_destructuring_export(p: Parts, line: Seq<char>, word: Seq<char>, rest: Seq<char>)
    requires
        word == "const "@ || word == "let "@ || word == "var "@,
        bare(trimmed(line)) == "export "@ + (word + (seq!['{'] + rest)),
    ensures
        with_statement(p, line) == Some(
            with_pattern_names(
                (Parts { out: p.out + (word + (seq!['{'] + rest)) + "\n"@, ..p }),
                braced_entries(seq!['{'] + rest),
            ),
        ),
{
    let t = bare(trimmed(line));
    let after = seq!['{'] + rest;
    let u = word + after;
    lemma_reveal_declaring();
    lemma_differs(after, "const "@, 0);
    lemma_differs(after, "let "@, 0);
    lemma_differs(after, "var "@, 0);
    lemma_differs(after, "async function "@, 0);
    lemma_differs(after, "function "@, 0);
    lemma_differs(after, "class "@, 0);
    lemma_declared(word, after);
    lemma_export_word(word, after);
    assert(t =~= "export "@ + word + after);
    reveal_strlit("\n");
    law_trimmed_start(seq![], seq!['{'] + rest);
    assert(seq![] + (seq!['{'] + rest) =~= seq!['{'] + rest);
    assert(p.out + u + seq!['\n'] =~= p.out + u + "\n"@);
}

/// The statements are taken in order, one by one; one that is refused is the end.
pub proof fn law_statements_in_order(lines: Seq<Seq<char>>, line: Seq<char>)
    ensures
        with_statements(lines) is None ==> with_statements(lines.push(line)) is None,
        with_statements(lines) is Some ==> with_statements(lines.push(line)) == with_statement(
            with_statements(lines)->0,
            line,
        ),
{
    assert(lines.push(line).drop_last() =~= lines);
}

/// The statements for star exports stand in order.
pub proof fn law_star_statements_in_order(
    stars: Seq<(Seq<char>, Option<Seq<char>>)>,
    spec: Seq<char>,
    name: Option<Seq<char>>,
)
    ensures
        star_texts(stars.push((spec, name))) == star_texts(stars) + star_text(spec, name),
        star_texts(seq![]) == Seq::<char>::empty(),
{
    assert(stars.push((spec, name)).drop_last() =~= stars);
}

/// The script holds the constants for imports first, then the module's statements, then its exports, then its
/// star exports; `import.meta` is replaced in all of it. Whether the module awaits is read off its source.
pub proof fn law_script_order(src: Seq<char>, p: Parts)
    requires
        with_statements(statements(without_comments(src))) == Some(p),
    ensures
        rewritten(src) is Some,
        rewritten(src)->0.body == replaced(
            p.imports_out + p.out + p.exports_out + star_texts(p.stars),
            "import.meta"@,
            "__v8jsc_meta"@,
        ),
        rewritten(src)->0.export_names == p.export_names,
        rewritten(src)->0.imports == p.imports,
        rewritten(src)->0.reexports == p.reexports,
        rewritten(src)->0.is_async == awaits(src),
{
    assert(p.imports_out + p.out + p.exports_out + star_texts(p.stars) =~= p.imports_out + p.out + (
    p.exports_out + star_texts(p.stars)));
}

/// A module is refused exactly where one of its statements is.
pub proof fn law_refused_module(src: Seq<char>)
    ensures
        rewritten(src) is None <==> with_statements(statements(without_comments(src))) is None,
{
}

proof fn lemma_one_statement(line: Seq<char>)
    requires
        line.len() > 0,
        !line.contains('\n'),
        !line.contains('/'),
        !opens_list(trimmed(line)),
    ensures
        statements(without_comments(line)) == seq![line],
{
    law_no_slash_is_kept(line);
    law_lines(line, seq![]);
    assert(statements_from(seq![line], 1) =~= seq![]);
    assert(statements(line) =~= seq![line]);
}

/// A module that exports one expression by default becomes a script that binds the expression, exports the
/// constant, and holds nothing else.
pub proof fn law_module_with_a_default_export(e: Seq<char>)
    requires
        is_stripped(e),
        !e.contains('\n'),
        !e.contains('/'),
    ensures
        rewritten("export default "@ + e) is Some,
        rewritten("export default "@ + e)->0.body == replaced(
            "const __v8jsc_default = "@ + e + "\n__ns[\"default\"] = __v8jsc_default;\n"@,
            "import.meta"@,
            "__v8jsc_meta"@,
        ),
        rewritten("export default "@ + e)->0.export_names == seq!["default"@],
        rewritten("export default "@ + e)->0.imports.len() == 0,
        rewritten("export default "@ + e)->0.reexports.len() == 0,
{
    let t = "export default "@ + e;
    lemma_words();
    assert(t[0] == 'e');
    assert(t.last() == e.last());
    assert forall|c: char| c == '\n' || c == '/' implies !t.contains(c) by {
        if t.contains(c) {
            let i = choose|i: int| 0 <= i < t.len() && t[i] == c;
            if i >= 15 {
                assert(e[i - 15] == c);
            }
        }
    }
    law_trimmed(seq![], t, seq![]);
    assert(seq![] + t + seq![] =~= t);
    reveal_strlit("/*");
    lemma_differs(t, "/*"@, 0);
    law_indented_statement(seq![], t);
    assert(seq![] + t =~= t);
    lemma_default_opens_no_list(e);
    lemma_one_statement(t);
    let start = no_parts();
    law_default_export_is_kept(start, t, e);
    assert(seq![t].drop_last() =~= seq![]);
    assert(with_statements(seq![]) == Some(start));
    let p = with_statement(start, t)->0;
    assert(with_statements(seq![t]) == Some(p));
    law_script_order(t, p);
    assert(star_texts(p.stars) =~= seq![]);
    reveal_strlit("\n");
    reveal_strlit("\n__ns[\"default\"] = __v8jsc_default;\n");
    reveal_strlit("__ns[\"default\"] = __v8jsc_default;\n");
    assert(p.imports_out + p.out + p.exports_out + star_texts(p.stars) =~= "const __v8jsc_default = "@
        + e + "\n__ns[\"default\"] = __v8jsc_default;\n"@);
    assert(p.export_names =~= seq!["default"@]);
}

proof fn lemma_default_opens_no_list(e: Seq<char>)
    ensures
        !opens_list("export default "@ + e),
{
    let t = "export default "@ + e;
    lemma_words();
    reveal_strlit("export");
    lemma_differs(t, "import"@, 0);
    assert(t.subrange(0, 6) =~= "export"@);
    let u = t.skip(6);
    let v = t.skip(7);
    assert(u =~= seq![' '] + v);
    assert(v[0] == 'd');
    law_trimmed_start(seq![' '], v);
}

/// A name stands for what it was imported as last.
pub proof fn law_latest_import_counts(
    bindings: Seq<(Seq<char>, Seq<char>, Seq<char>)>,
    name: Seq<char>,
    spec: Seq<char>,
    source: Seq<char>,
    other: Seq<char>,
)
    ensures
        bound(bindings.push((name, spec, source)), name) == Some((spec, source)),
        other != name ==> bound(bindings.push((name, spec, source)), other) == bound(bindings, other),
        bound(seq![], name) is None,
{
    assert(bindings.push((name, spec, source)).drop_last() =~= bindings);
}

/// A listed name that is imported is a live re-export of what it was imported as.
pub proof fn law_listed_import_is_live(
    p: Parts,
    entry: Seq<char>,
    local: Seq<char>,
    name: Seq<char>,
    spec: Seq<char>,
    source: Seq<char>,
)
    requires
        renamed(entry) == (local, name),
        bound(p.bindings, local) == Some((spec, source)),
    ensures
        with_export_entry(p, entry, None) == (Parts {
            export_names: p.export_names.push(name),
            reexports: p.reexports.push((name, spec, source)),
            ..p
        }),
{
}

/// An import that names no module imports none.
pub proof fn law_import_without_module(p: Parts, line: Seq<char>)
    requires
        bare(trimmed(line)) == "import"@ || begins(bare(trimmed(line)), "import "@),
        specifier(bare(trimmed(line))) is None,
        !contains_text(bare(trimmed(line)).skip(6), " from "@),
    ensures
        with_statement(p, line) == Some(p),
{
    let t = bare(trimmed(line));
    lemma_words();
    if begins(t, "import "@) {
        lemma_import_statement(t);
    } else {
        lemma_differs(t, "export *"@, 0);
    }
    law_search(t.skip(6), " from "@, seq![]);
    reveal_strlit(" from ");
    reveal_strlit("* as ");
    assert(import_clause(t) =~= seq![]);
}

/// An exported declaration of an array pattern stays in the script and exports no name.
#[verifier::rlimit(30)]
pub proof fn law_array_pattern_exports_nothing(p: Parts, line: Seq<char>, word: Seq<char>, rest: Seq<char>)
    requires
        word == "const "@ || word == "let "@ || word == "var "@,
        bare(trimmed(line)) == "export "@ + (word + (seq!['['] + rest)),
    ensures
        with_statement(p, line) == Some(
            Parts { out: p.out + (word + (seq!['['] + rest)) + "\n"@, ..p },
        ),
{
    let t = bare(trimmed(line));
    let after = seq!['['] + rest;
    let u = word + after;
    lemma_reveal_declaring();
    lemma_differs(after, "const "@, 0);
    lemma_differs(after, "let "@, 0);
    lemma_differs(after, "var "@, 0);
    lemma_differs(after, "async function "@, 0);
    lemma_differs(after, "function "@, 0);
    lemma_differs(after, "class "@, 0);
    lemma_declared(word, after);
    lemma_export_word(word, after);
    assert(t =~= "export "@ + word + after);
    reveal_strlit("\n");
    law_trimmed_start(seq![], after);
    assert(seq![] + after =~= after);
    law_leading_name(seq![], after);
    assert(p.out + u + seq!['\n'] =~= p.out + u + "\n"@);
}

/// What is handed on of a re-export is its exported name, its source and its name there.
pub proof fn law_reexports_as_handed_on(v: Seq<(String, String, String)>, i: int)
    requires
        0 <= i < v.len(),
    ensures
        string_triples(v).len() == v.len(),
        string_triples(v)[i] == (v[i].0@, v[i].1@, v[i].2@),
{
}

/// Without a brace, or without one that closes it, a list has no entries.
pub proof fn law_no_braces_no_entries(before: Seq<char>, rest: Seq<char>)
    requires
        !before.contains('{'),
        !rest.contains('}'),
    ensures
        braced_entries(before).len() == 0,
        braced_entries(before + seq!['{'] + rest).len() == 0,
{
    law_search_character(before, '{', rest);
    let s = before + seq!['{'] + rest;
    let n = before.len() as int;
    lemma_char_from(s, '}', n + 1);
    if let Some(k) = char_from(s, '}', n + 1) {
        assert(rest[k - n - 1] == '}');
    }
    law_entries(seq![], seq![], seq![], seq![]);
    assert(Seq::<char>::empty() + Seq::<char>::empty() + Seq::<char>::empty() =~= seq![]);
}

/// A statement without ` from ` names the module of its first literal.
pub proof fn law_first_literal_names_the_module(before: Seq<char>, quote: char, spec: Seq<char>, rest: Seq<char>)
    requires
        quote == '"' || quote == '\'',
        forall|i: int| 0 <= i < before.len() ==> before[i] != '"' && before[i] != '\'',
        !spec.contains(quote),
        !contains_text(before + (seq![quote] + spec + seq![quote] + rest), " from "@),
    ensures
        specifier(before + (seq![quote] + spec + seq![quote] + rest)) == Some(spec),
        !contains_text(before, " from "@) ==> specifier(before) is None,
{
    let s = before + (seq![quote] + spec + seq![quote] + rest);
    reveal_strlit(" from ");
    law_search_from_the_end(s, " from "@, seq![]);
    law_search_from_the_end(before, " from "@, seq![]);
    law_literals(before, quote, spec, rest);
}

/// A named star export whose source does not follow ` from ` goes by all that stands behind `as`.
pub proof fn law_star_name_without_from(before: Seq<char>, name: Seq<char>)
    requires
        all_white(before),
        is_stripped(name),
        !contains_text(name, " from "@),
    ensures
        star_name("export *"@ + (before + ("as "@ + name))) == Some(name),
{
    let u = "as "@ + name;
    reveal_strlit("export *");
    reveal_strlit("as ");
    reveal_strlit(" from ");
    lemma_begins_with("export *"@, before + u);
    law_trimmed_start(before, u);
    lemma_begins_with("as "@, name);
    law_search(name, " from "@, seq![]);
    assert(seq![] + name + seq![] =~= name);
    law_trimmed(seq![], name, seq![]);
}

/// A list before ` from ` is a re-export even where no module is named: none is imported for it.
pub proof fn law_reexport_without_module(p: Parts, line: Seq<char>, rest: Seq<char>)
    requires
        bare(trimmed(line)) == "export {"@ + rest,
        contains_text(bare(trimmed(line)), " from "@),
        specifier(bare(trimmed(line))) is None,
    ensures
        with_statement(p, line) == Some(
            with_export_entries(p, braced_entries(bare(trimmed(line))), Some(seq![])),
        ),
{
    let t = bare(trimmed(line));
    lemma_words();
    lemma_begins_with("export {"@, rest);
    assert(t[7] == '{');
    lemma_differs(t, "export *"@, 7);
    assert(t[0] == 'e');
    lemma_differs(t, "import "@, 0);
    assert("import"@[0] != t[0]);
    assert((Parts { imports: p.imports, ..p }) == p);
}

} // verus!
