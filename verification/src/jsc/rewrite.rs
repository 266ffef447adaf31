//! Turning a module's source text into a script that fills a namespace object.
//!
//! An `import` becomes constants read from the namespaces of the imported modules, an `export`
//! becomes an assignment to `__ns`, and a re-export is reported so that it can be installed as a
//! live getter.

use crate::jsc::comments::{strip_comments, without_comments};
use crate::jsc::statements::{bare, join_statements, statements, strip_leading};
use crate::jsc::top_level_await::{awaits, has_top_level_await};
use crate::specifier::{attribute_type, find_attribute_type, first_literal, literal_from};
use crate::text::{
    begins, char_from, chars_of, contains, contains_text, copied, find_char, find_from, first_from,
    is_text, join, joined, last_upto, leading_name, lemma_char_from, lemma_first_from,
    lemma_last_upto, name_prefix, pieces_of, push_all, push_str, quote, quoted, replace, replaced,
    rfind, span, split, starts_with, string_of, strings, strip_prefixes, strip_trailing, tail,
    texts, trim, trim_start, trimmed, trimmed_start, without_prefixes, without_trailing,
};
use vstd::prelude::*;

verus! {

/// What stands between the first `open` in `s` and the next `close` behind it.
pub open spec fn enclosed(s: Seq<char>, open: char, close: char) -> Option<Seq<char>> {
    match char_from(s, open, 0) {
        None => None,
        Some(a) => match char_from(s, close, a + 1) {
            None => None,
            Some(b) => Some(s.subrange(a + 1, b)),
        },
    }
}

/// What stands between the first `open` in `s` and the next `close` behind it.
pub fn find_enclosed(s: &[char], open: char, close: char) -> (r: Option<&[char]>)
    ensures
        match r {
            Some(t) => enclosed(s@, open, close) == Some(t@),
            None => enclosed(s@, open, close) is None,
        },
{
    proof {
        lemma_char_from(s@, open, 0);
    }
    match find_char(s, open, 0) {
        None => None,
        Some(a) => {
            proof {
                lemma_char_from(s@, close, a + 1);
            }
            assert(a < s.len());
            match find_char(s, close, a + 1) {
                None => None,
                Some(b) => Some(span(s, a + 1, b)),
            }
        },
    }
}

/// What stands between the first `open` in `s` and the next `close` behind it.
pub fn between(s: &str, open: char, close: char) -> (r: Option<String>)
    ensures
        match r {
            Some(t) => enclosed(s@, open, close) == Some(t@),
            None => enclosed(s@, open, close) is None,
        },
{
    let s = chars_of(s);
    match find_enclosed(&s, open, close) {
        Some(t) => Some(string_of(t)),
        None => None,
    }
}

/// The module specifier that the statement `line` names: the first string literal behind its last
/// ` from `, or in the whole line where it has none.
pub open spec fn specifier(line: Seq<char>) -> Option<Seq<char>> {
    match last_upto(line, " from "@, line.len() as int) {
        Some(p) => literal_from(line, p + 6),
        None => literal_from(line, 0),
    }
}

/// The module specifier that the statement `line` names.
pub fn find_specifier(line: &[char]) -> (r: Option<&[char]>)
    ensures
        match r {
            Some(t) => specifier(line@) == Some(t@),
            None => specifier(line@) is None,
        },
{
    let from = chars_of(" from ");
    proof {
        reveal_strlit(" from ");
        lemma_last_upto(line@, from@, line@.len() as int);
        assert(line@.len() == line.len());
    }
    match rfind(line, &from) {
        Some(p) => first_literal(line, p + 6),
        None => first_literal(line, 0),
    }
}

/// The module specifier that the statement `line` names.
pub fn extract_specifier(line: &str) -> (r: Option<String>)
    ensures
        match r {
            Some(t) => specifier(line@) == Some(t@),
            None => specifier(line@) is None,
        },
{
    let s = chars_of(line);
    match find_specifier(&s) {
        Some(t) => Some(string_of(t)),
        None => None,
    }
}

/// The `type` attribute of the import statement `stmt`.
pub fn extract_attr_type(stmt: &str) -> (r: Option<String>)
    ensures
        match r {
            Some(t) => attribute_type(stmt@) == Some(t@),
            None => attribute_type(stmt@) is None,
        },
{
    let s = chars_of(stmt);
    match find_attribute_type(&s) {
        Some(t) => Some(string_of(t)),
        None => None,
    }
}

/// The specifier of `line`, empty where it names none.
pub open spec fn specifier_or_empty(line: Seq<char>) -> Seq<char> {
    match specifier(line) {
        Some(s) => s,
        None => seq![],
    }
}

/// The specifier of `line`, empty where it names none.
fn find_specifier_or_empty(line: &[char]) -> (r: Vec<char>)
    ensures
        r@ == specifier_or_empty(line@),
{
    match find_specifier(line) {
        Some(s) => copied(s),
        None => Vec::new(),
    }
}

/// The entries of a list that commas separate: its pieces, stripped, without the empty ones.
pub open spec fn entries(pieces: Seq<Seq<char>>) -> Seq<Seq<char>>
    decreases pieces.len(),
{
    if pieces.len() == 0 {
        seq![]
    } else {
        let rest = entries(pieces.drop_last());
        let last = trimmed(pieces.last());
        if last.len() == 0 {
            rest
        } else {
            rest.push(last)
        }
    }
}

/// The entries of the list in the first braces of `s`; none where `s` has no braces.
pub open spec fn braced_entries(s: Seq<char>) -> Seq<Seq<char>> {
    match enclosed(s, '{', '}') {
        Some(inner) => entries(pieces_of(inner, ',')),
        None => entries(pieces_of(seq![], ',')),
    }
}

/// The entries of the list in the first braces of `s`.
fn find_braced_entries(s: &[char]) -> (r: Vec<Vec<char>>)
    ensures
        texts(r@) == braced_entries(s@),
{
    let inner: Vec<char> = match find_enclosed(s, '{', '}') {
        Some(t) => copied(t),
        None => Vec::new(),
    };
    assert(inner@ =~= match enclosed(s@, '{', '}') {
        Some(t) => t,
        None => seq![],
    });
    let pieces = split(&inner, ',');
    let ghost all = texts(pieces@);
    let mut out: Vec<Vec<char>> = Vec::new();
    let mut i: usize = 0;
    assert(texts(out@) =~= entries(all.take(0)));
    while i < pieces.len()
        invariant
            i <= pieces.len(),
            all == texts(pieces@),
            texts(out@) =~= entries(all.take(i as int)),
        decreases pieces.len() - i,
    {
        let ghost done = texts(out@);
        let part = trim(&pieces[i]);
        assert(all.take(i + 1).drop_last() =~= all.take(i as int));
        if part.len() > 0 {
            out.push(copied(part));
            assert(texts(out@) =~= done.push(part@));
        }
        i += 1;
    }
    assert(all.take(all.len() as int) =~= all);
    out
}

/// What stands on both sides of ` as ` in a list entry; the entry twice where it has no ` as `.
pub open spec fn renamed(entry: Seq<char>) -> (Seq<char>, Seq<char>) {
    match first_from(entry, " as "@, 0) {
        Some(k) => (trimmed(entry.take(k)), trimmed(entry.skip(k + 4))),
        None => (entry, entry),
    }
}

/// What stands on both sides of ` as ` in a list entry, and whether there is one.
fn split_rename(entry: &[char]) -> (r: (Vec<char>, Vec<char>, bool))
    ensures
        (r.0@, r.1@) == renamed(entry@),
        r.2 == (first_from(entry@, " as "@, 0) is Some),
{
    let word = chars_of(" as ");
    proof {
        reveal_strlit(" as ");
        lemma_first_from(entry@, word@, 0);
        assert(entry@.len() == entry.len());
    }
    match find_from(entry, &word, 0) {
        Some(k) => {
            assert(entry@.subrange(0, k as int) =~= entry@.take(k as int));
            (copied(trim(span(entry, 0, k))), copied(trim(tail(entry, k + 4))), true)
        },
        None => (copied(entry), copied(entry), false),
    }
}

/// The namespace object of the module `spec`, given in quotes.
pub open spec fn namespace_text(quoted_spec: Seq<char>) -> Seq<char> {
    "((globalThis.__v8jsc_modules||{})["@ + quoted_spec + "]||{})"@
}

/// The namespace object of a module, its specifier given in quotes.
pub fn namespace_expr(quoted_spec: &[char]) -> (r: Vec<char>)
    ensures
        r@ == namespace_text(quoted_spec@),
{
    let mut out = chars_of("((globalThis.__v8jsc_modules||{})[");
    push_all(&mut out, quoted_spec);
    push_str(&mut out, "]||{})");
    out
}

/// The namespace object of the module `spec`.
pub open spec fn namespace_of(spec: Seq<char>) -> Seq<char> {
    namespace_text(quoted(spec))
}

/// The statement that exports `expr` under a name given in quotes.
pub open spec fn export_text(quoted_name: Seq<char>, expr: Seq<char>) -> Seq<char> {
    "__ns["@ + quoted_name + "] = "@ + expr + ";\n"@
}

/// Appends the statement that exports `expr` under a name given in quotes.
pub fn push_export(out: &mut Vec<char>, quoted_name: &[char], expr: &[char])
    ensures
        final(out)@ == old(out)@ + export_text(quoted_name@, expr@),
{
    let ghost before = out@;
    push_str(out, "__ns[");
    push_all(out, quoted_name);
    push_str(out, "] = ");
    push_all(out, expr);
    push_str(out, ";\n");
    assert(out@ =~= before + export_text(quoted_name@, expr@));
}

/// The statement that declares the constant `name` with value `expr`.
pub open spec fn const_text(name: Seq<char>, expr: Seq<char>) -> Seq<char> {
    "const "@ + name + " = "@ + expr + ";\n"@
}

/// Appends the statement that declares the constant `name` with value `expr`.
fn push_const(out: &mut Vec<char>, name: &[char], expr: &[char])
    ensures
        final(out)@ == old(out)@ + const_text(name@, expr@),
{
    let ghost before = out@;
    push_str(out, "const ");
    push_all(out, name);
    push_str(out, " = ");
    push_all(out, expr);
    push_str(out, ";\n");
    assert(out@ =~= before + const_text(name@, expr@));
}

/// A local name, the specifier of the module it is imported from, and its name there.
pub type Binding = (Seq<char>, Seq<char>, Seq<char>);

/// The pieces of the script being built.
#[verifier::ext_equal]
pub struct Parts {
    /// The constants that stand for imports.
    pub imports_out: Seq<char>,
    /// The module's own statements.
    pub out: Seq<char>,
    /// The assignments to the namespace.
    pub exports_out: Seq<char>,
    /// The exported names.
    pub export_names: Seq<Seq<char>>,
    /// The specifiers of the imported modules.
    pub imports: Seq<Seq<char>>,
    /// Exported name, source specifier and name in the source, of each live re-export.
    pub reexports: Seq<Binding>,
    /// The imported names.
    pub bindings: Seq<Binding>,
    /// Specifier and name, where it has one, of each `export *`.
    pub stars: Seq<(Seq<char>, Option<Seq<char>>)>,
}

/// The executable counterpart of `Parts`.
pub struct Draft {
    imports_out: Vec<char>,
    out: Vec<char>,
    exports_out: Vec<char>,
    export_names: Vec<Vec<char>>,
    imports: Vec<Vec<char>>,
    reexports: Vec<(Vec<char>, Vec<char>, Vec<char>)>,
    bindings: Vec<(Vec<char>, Vec<char>, Vec<char>)>,
    stars: Vec<(Vec<char>, Option<Vec<char>>)>,
}

/// The views of a list of triples.
pub open spec fn triples(v: Seq<(Vec<char>, Vec<char>, Vec<char>)>) -> Seq<Binding> {
    Seq::new(v.len(), |i: int| (v[i].0@, v[i].1@, v[i].2@))
}

/// The views of a list of star exports.
pub open spec fn star_views(v: Seq<(Vec<char>, Option<Vec<char>>)>) -> Seq<
    (Seq<char>, Option<Seq<char>>),
> {
    Seq::new(
        v.len(),
        |i: int|
            (
                v[i].0@,
                match v[i].1 {
                    Some(n) => Some(n@),
                    None => None,
                },
            ),
    )
}

impl View for Draft {
    type V = Parts;

    closed spec fn view(&self) -> Parts {
        Parts {
            imports_out: self.imports_out@,
            out: self.out@,
            exports_out: self.exports_out@,
            export_names: texts(self.export_names@),
            imports: texts(self.imports@),
            reexports: triples(self.reexports@),
            bindings: triples(self.bindings@),
            stars: star_views(self.stars@),
        }
    }
}

/// Nothing yet.
pub open spec fn no_parts() -> Parts {
    Parts {
        imports_out: seq![],
        out: seq![],
        exports_out: seq![],
        export_names: seq![],
        imports: seq![],
        reexports: seq![],
        bindings: seq![],
        stars: seq![],
    }
}

/// `list`, and `spec` behind it unless it is empty.
pub open spec fn with_specifier(list: Seq<Seq<char>>, spec: Seq<char>) -> Seq<Seq<char>> {
    if spec.len() == 0 {
        list
    } else {
        list.push(spec)
    }
}

/// The name in `export * as name from ...`: what follows `as ` up to the first ` from `.
pub open spec fn star_name(t: Seq<char>) -> Option<Seq<char>> {
    let after = trimmed_start(t.skip(8));
    if begins(after, "as "@) {
        let rest = after.skip(3);
        match first_from(rest, " from "@, 0) {
            Some(k) => Some(trimmed(rest.take(k))),
            None => Some(trimmed(rest)),
        }
    } else {
        None
    }
}

/// The parts after `export * from spec` or `export * as name from spec`; a star export that names no
/// module is refused.
pub open spec fn with_star(p: Parts, t: Seq<char>) -> Option<Parts> {
    let spec = specifier_or_empty(t);
    let name = star_name(t);
    if spec.len() == 0 {
        None
    } else {
        Some(
            Parts {
                imports: p.imports.push(spec),
                export_names: match name {
                    Some(n) => with_specifier(p.export_names, n),
                    None => p.export_names,
                },
                stars: p.stars.push((spec, name)),
                ..p
            },
        )
    }
}

/// What an import statement imports: what stands between `import` and the first ` from `.
pub open spec fn import_clause(t: Seq<char>) -> Seq<char> {
    match first_from(t.skip(6), " from "@, 0) {
        Some(k) => trimmed(t.skip(6).take(k)),
        None => seq![],
    }
}

/// The name before the braces of an import clause: that of the default import.
pub open spec fn clause_head(clause: Seq<char>) -> Seq<char> {
    match char_from(clause, '{', 0) {
        Some(k) => trimmed(without_trailing(trimmed(clause.take(k)), ',')),
        None => seq![],
    }
}

/// A list entry as a property pattern: `name`, or `name: local`.
pub open spec fn pattern(entry: Seq<char>) -> Seq<char> {
    if first_from(entry, " as "@, 0) is Some {
        renamed(entry).0 + ": "@ + renamed(entry).1
    } else {
        entry
    }
}

/// The patterns of all entries.
pub open spec fn patterns(list: Seq<Seq<char>>) -> Seq<Seq<char>> {
    Seq::new(list.len(), |i: int| pattern(list[i]))
}

/// The names that an import list binds, with their source.
pub open spec fn list_bindings(list: Seq<Seq<char>>, spec: Seq<char>) -> Seq<Binding> {
    Seq::new(list.len(), |i: int| (renamed(list[i]).1, spec, renamed(list[i]).0))
}

/// The parts with the constant `name` for the import of `source` from `spec`, whose value is `expr`.
pub open spec fn with_constant(
    p: Parts,
    name: Seq<char>,
    spec: Seq<char>,
    source: Seq<char>,
    expr: Seq<char>,
) -> Parts {
    if name.len() == 0 {
        p
    } else {
        Parts {
            imports_out: p.imports_out + const_text(name, expr),
            bindings: p.bindings.push((name, spec, source)),
            ..p
        }
    }
}

/// The parts with the constants for a list of imported names.
pub open spec fn with_import_list(p: Parts, list: Seq<Seq<char>>, spec: Seq<char>) -> Parts {
    Parts {
        imports_out: p.imports_out + ("const { "@ + joined(patterns(list), ", "@) + " } = "@
            + namespace_of(spec) + ";\n"@),
        bindings: p.bindings + list_bindings(list, spec),
        ..p
    }
}

/// The parts after an import statement: a default import before braces, then the names in braces; or
/// a namespace import; or a default import alone; or nothing but the module's specifier.
pub open spec fn with_import(p: Parts, t: Seq<char>) -> Parts {
    let spec = specifier_or_empty(t);
    let clause = import_clause(t);
    let q = Parts { imports: with_specifier(p.imports, spec), ..p };
    let default_expr = namespace_of(spec) + ".default"@;
    if clause.contains('{') {
        with_import_list(
            with_constant(q, clause_head(clause), spec, "default"@, default_expr),
            braced_entries(t),
            spec,
        )
    } else if begins(clause, "* as "@) {
        with_constant(q, trimmed(clause.skip(5)), spec, "*"@, namespace_of(spec))
    } else {
        with_constant(q, clause, spec, "default"@, default_expr)
    }
}

/// Where the local name `name` is imported from; the latest import of a name counts.
pub open spec fn bound(bindings: Seq<Binding>, name: Seq<char>) -> Option<(Seq<char>, Seq<char>)>
    decreases bindings.len(),
{
    if bindings.len() == 0 {
        None
    } else if bindings.last().0 == name {
        Some((bindings.last().1, bindings.last().2))
    } else {
        bound(bindings.drop_last(), name)
    }
}

/// The parts after one entry of an export list. It is a live re-export where the statement names a
/// module or the local name is imported; else the local value is assigned.
pub open spec fn with_export_entry(p: Parts, entry: Seq<char>, source: Option<Seq<char>>) -> Parts {
    let (local, exported) = renamed(entry);
    let q = Parts { export_names: p.export_names.push(exported), ..p };
    match source {
        Some(spec) => Parts { reexports: q.reexports.push((exported, spec, local)), ..q },
        None => match bound(q.bindings, local) {
            Some((spec, name)) => Parts { reexports: q.reexports.push((exported, spec, name)), ..q },
            None => Parts {
                exports_out: q.exports_out + export_text(quoted(exported), local),
                ..q
            },
        },
    }
}

/// The parts after the entries of an export list.
pub open spec fn with_export_entries(
    p: Parts,
    list: Seq<Seq<char>>,
    source: Option<Seq<char>>,
) -> Parts
    decreases list.len(),
{
    if list.len() == 0 {
        p
    } else {
        with_export_entry(with_export_entries(p, list.drop_last(), source), list.last(), source)
    }
}

/// The parts after `export { ... }` or `export { ... } from spec`.
pub open spec fn with_export_list(p: Parts, t: Seq<char>) -> Parts {
    let spec = specifier_or_empty(t);
    if contains_text(t, " from "@) {
        with_export_entries(
            Parts { imports: with_specifier(p.imports, spec), ..p },
            braced_entries(t),
            Some(spec),
        )
    } else {
        with_export_entries(p, braced_entries(t), None)
    }
}

/// The parts after `export default expr`.
pub open spec fn with_default_export(p: Parts, t: Seq<char>) -> Parts {
    Parts {
        export_names: p.export_names.push("default"@),
        out: p.out + "const __v8jsc_default = "@ + t.skip(15) + seq!['\n'],
        exports_out: p.exports_out + "__ns[\"default\"] = __v8jsc_default;\n"@,
        ..p
    }
}

/// `t` begins with a declaration that is exported.
pub open spec fn exports_declaration(t: Seq<char>) -> bool {
    ||| begins(t, "export const "@)
    ||| begins(t, "export let "@)
    ||| begins(t, "export var "@)
    ||| begins(t, "export function "@)
    ||| begins(t, "export async function "@)
    ||| begins(t, "export class "@)
}

/// What follows the declaration keywords.
pub open spec fn declared(rest: Seq<char>) -> Seq<char> {
    without_prefixes(
        without_prefixes(
            without_prefixes(
                without_prefixes(
                    without_prefixes(without_prefixes(rest, "const "@), "let "@),
                    "var "@,
                ),
                "async function "@,
            ),
            "function "@,
        ),
        "class "@,
    )
}

/// The local name in an entry of a destructuring pattern: what follows its last `:`, up to the first
/// `=`.
pub open spec fn pattern_local(entry: Seq<char>) -> Seq<char> {
    trimmed(pieces_of(pieces_of(entry, ':').last(), '=')[0])
}

/// The parts with the exported name `name`; an empty name exports nothing.
pub open spec fn with_exported_name(p: Parts, name: Seq<char>) -> Parts {
    if name.len() == 0 {
        p
    } else {
        Parts {
            export_names: p.export_names.push(name),
            exports_out: p.exports_out + export_text(quoted(name), name),
            ..p
        }
    }
}

/// The parts with the names that the entries of a destructuring pattern declare.
pub open spec fn with_pattern_names(p: Parts, list: Seq<Seq<char>>) -> Parts
    decreases list.len(),
{
    if list.len() == 0 {
        p
    } else {
        with_exported_name(
            with_pattern_names(p, list.drop_last()),
            leading_name(pattern_local(list.last())),
        )
    }
}

/// The parts after an exported declaration.
pub open spec fn with_declaration(p: Parts, t: Seq<char>) -> Parts {
    let rest = t.skip(7);
    let after = declared(rest);
    let q = Parts { out: p.out + rest + seq!['\n'], ..p };
    let first = trimmed_start(after);
    if first.len() > 0 && first[0] == '{' {
        with_pattern_names(q, braced_entries(after))
    } else {
        with_exported_name(q, leading_name(after))
    }
}

/// The parts after the statement `line`; `None` where it is refused.
pub open spec fn with_statement(p: Parts, line: Seq<char>) -> Option<Parts> {
    let t = bare(trimmed(line));
    if begins(t, "export *"@) {
        with_star(p, t)
    } else if begins(t, "import "@) || t == "import"@ {
        Some(with_import(p, t))
    } else if begins(t, "export {"@) || begins(t, "export{"@) {
        Some(with_export_list(p, t))
    } else if begins(t, "export default "@) {
        Some(with_default_export(p, t))
    } else if exports_declaration(t) {
        Some(with_declaration(p, t))
    } else {
        Some(Parts { out: p.out + line + seq!['\n'], ..p })
    }
}

/// The parts after all of `lines`.
pub open spec fn with_statements(lines: Seq<Seq<char>>) -> Option<Parts>
    decreases lines.len(),
{
    if lines.len() == 0 {
        Some(no_parts())
    } else {
        match with_statements(lines.drop_last()) {
            Some(p) => with_statement(p, lines.last()),
            None => None,
        }
    }
}

/// The statements that perform a star export: a namespace bound to a name, or a getter for every
/// name but `default` that the module does not export itself.
pub open spec fn star_text(spec: Seq<char>, name: Option<Seq<char>>) -> Seq<char> {
    if name is Some && name->0.len() > 0 {
        export_text(quoted(name->0), namespace_of(spec))
    } else {
        "{const __se="@ + namespace_of(spec)
            + ";for(const __k of Object.keys(__se)){if(__k!==\"default\"&&!Object.prototype.hasOwnProperty.call(__ns,__k)){Object.defineProperty(__ns,__k,{get:((k)=>()=>__se[k])(__k),enumerable:true,configurable:true});}}}\n"@
    }
}

/// The statements that perform all star exports.
pub open spec fn star_texts(stars: Seq<(Seq<char>, Option<Seq<char>>)>) -> Seq<char>
    decreases stars.len(),
{
    if stars.len() == 0 {
        seq![]
    } else {
        star_texts(stars.drop_last()) + star_text(stars.last().0, stars.last().1)
    }
}

/// A module turned into a script.
#[verifier::ext_equal]
pub struct Rewritten {
    pub body: Seq<char>,
    pub export_names: Seq<Seq<char>>,
    pub imports: Seq<Seq<char>>,
    pub is_async: bool,
    pub reexports: Seq<Binding>,
}

/// The body of the script: imports, the module's statements, its exports, then its star exports, so
/// that a module's own exports win. `import.meta` becomes `__v8jsc_meta`.
pub open spec fn body_of(p: Parts) -> Seq<char> {
    replaced(
        p.imports_out + p.out + (p.exports_out + star_texts(p.stars)),
        "import.meta"@,
        "__v8jsc_meta"@,
    )
}

/// The script that the module `src` becomes; `None` where a star export names no module.
pub open spec fn rewritten(src: Seq<char>) -> Option<Rewritten> {
    match with_statements(statements(without_comments(src))) {
        Some(p) => Some(
            Rewritten {
                body: body_of(p),
                export_names: p.export_names,
                imports: p.imports,
                is_async: awaits(src),
                reexports: p.reexports,
            },
        ),
        None => None,
    }
}

/// Whether `a` and `b` hold the same characters.
fn same(a: &[char], b: &[char]) -> (r: bool)
    ensures
        r == (a@ == b@),
{
    if a.len() != b.len() {
        return false;
    }
    let mut i: usize = 0;
    while i < a.len()
        invariant
            i <= a.len(),
            a.len() == b.len(),
            forall|j: int| 0 <= j < i ==> a@[j] == b@[j],
        decreases a.len() - i,
    {
        if a[i] != b[i] {
            return false;
        }
        i += 1;
    }
    assert(a@ =~= b@);
    true
}

/// `namespace_of`, executably.
fn namespace(spec: &[char]) -> (r: Vec<char>)
    ensures
        r@ == namespace_of(spec@),
{
    namespace_expr(&quote(spec))
}

/// The default export of the module `spec`.
fn namespace_default(spec: &[char]) -> (r: Vec<char>)
    ensures
        r@ == namespace_of(spec@) + ".default"@,
{
    let mut r = namespace(spec);
    push_str(&mut r, ".default");
    r
}

impl Draft {
    fn new() -> (r: Draft)
        ensures
            r@ == no_parts(),
    {
        let r = Draft {
            imports_out: Vec::new(),
            out: Vec::new(),
            exports_out: Vec::new(),
            export_names: Vec::new(),
            imports: Vec::new(),
            reexports: Vec::new(),
            bindings: Vec::new(),
            stars: Vec::new(),
        };
        assert(r@ =~= no_parts());
        r
    }

    /// Adds a specifier unless it is empty.
    fn add_import(&mut self, spec: &[char])
        ensures
            final(self)@ == (Parts { imports: with_specifier(old(self)@.imports, spec@), ..old(self)@ }),
    {
        if spec.len() > 0 {
            self.imports.push(copied(spec));
            assert(texts(self.imports@) =~= old(self)@.imports.push(spec@));
        }
        assert(self@ =~= Parts { imports: with_specifier(old(self)@.imports, spec@), ..old(self)@ });
    }

    /// Adds an exported name.
    fn add_name(&mut self, name: &[char])
        ensures
            final(self)@ == (Parts { export_names: old(self)@.export_names.push(name@), ..old(self)@ }),
    {
        self.export_names.push(copied(name));
        assert(texts(self.export_names@) =~= old(self)@.export_names.push(name@));
    }

    /// Adds an imported name.
    fn add_binding(&mut self, name: &[char], spec: &[char], source: &[char])
        ensures
            final(self)@ == (Parts {
                bindings: old(self)@.bindings.push((name@, spec@, source@)),
                ..old(self)@
            }),
    {
        self.bindings.push((copied(name), copied(spec), copied(source)));
        assert(triples(self.bindings@) =~= old(self)@.bindings.push((name@, spec@, source@)));
    }

    /// Adds a live re-export.
    fn add_reexport(&mut self, exported: &[char], spec: &[char], source: &[char])
        ensures
            final(self)@ == (Parts {
                reexports: old(self)@.reexports.push((exported@, spec@, source@)),
                ..old(self)@
            }),
    {
        self.reexports.push((copied(exported), copied(spec), copied(source)));
        assert(triples(self.reexports@) =~= old(self)@.reexports.push((exported@, spec@, source@)));
    }

    /// Adds an assignment to the namespace.
    fn add_export(&mut self, name: &[char], expr: &[char])
        ensures
            final(self)@ == (Parts {
                exports_out: old(self)@.exports_out + export_text(quoted(name@), expr@),
                ..old(self)@
            }),
    {
        push_export(&mut self.exports_out, &quote(name), expr);
    }

    /// Adds lines to the module's own statements.
    fn add_line(&mut self, before: &str, line: &[char])
        ensures
            final(self)@ == (Parts {
                out: old(self)@.out + before@ + line@ + seq!['\n'],
                ..old(self)@
            }),
    {
        push_str(&mut self.out, before);
        push_all(&mut self.out, line);
        self.out.push('\n');
        assert(self.out@ =~= old(self)@.out + before@ + line@ + seq!['\n']);
    }

    /// Adds a constant for an import, unless its name is empty.
    fn add_constant(&mut self, name: &[char], spec: &[char], source: &str, expr: &[char])
        ensures
            final(self)@ == with_constant(old(self)@, name@, spec@, source@, expr@),
    {
        if name.len() > 0 {
            push_const(&mut self.imports_out, name, expr);
            let source = chars_of(source);
            self.add_binding(name, spec, &source);
        }
    }

    /// `export * from spec` or `export * as name from spec`; whether it names a module.
    fn star(&mut self, t: &[char]) -> (r: bool)
        requires
            begins(t@, "export *"@),
        ensures
            match with_star(old(self)@, t@) {
                Some(p) => r && final(self)@ == p,
                None => !r,
            },
    {
        proof {
            reveal_strlit("export *");
            reveal_strlit("as ");
            assert(t@.len() == t.len());
        }
        let spec = find_specifier_or_empty(t);
        if spec.len() == 0 {
            return false;
        }
        let after = trim_start(tail(t, 8));
        let mut name: Option<Vec<char>> = None;
        if starts_with(after, "as ") {
            assert(after@.len() == after.len());
            let rest = tail(after, 3);
            let from = chars_of(" from ");
            proof {
                lemma_first_from(rest@, from@, 0);
            }
            let n = match find_from(rest, &from, 0) {
                Some(k) => {
                    assert(rest@.subrange(0, k as int) =~= rest@.take(k as int));
                    copied(trim(span(rest, 0, k)))
                },
                None => copied(trim(rest)),
            };
            if n.len() > 0 {
                self.add_name(&n);
            }
            name = Some(n);
        }
        let ghost named = self@;
        self.imports.push(copied(&spec));
        assert(texts(self.imports@) =~= named.imports.push(spec@));
        self.stars.push((spec, name));
        assert(star_views(self.stars@) =~= named.stars.push((spec@, star_name(t@))));
        assert(self@ =~= with_star(old(self)@, t@)->0);
        true
    }

    /// The names in braces of an import statement.
    fn import_list(&mut self, list: &[Vec<char>], spec: &[char])
        ensures
            final(self)@ == with_import_list(old(self)@, texts(list@), spec@),
    {
        let ghost before = self@;
        let mut shapes: Vec<Vec<char>> = Vec::new();
        let mut i: usize = 0;
        assert(before.bindings =~= before.bindings + list_bindings(texts(list@).take(0), spec@));
        assert(texts(shapes@) =~= patterns(texts(list@).take(0)));
        while i < list.len()
            invariant
                i <= list.len(),
                texts(shapes@) =~= patterns(texts(list@).take(i as int)),
                self@ =~= (Parts {
                    bindings: before.bindings + list_bindings(texts(list@).take(i as int), spec@),
                    ..before
                }),
            decreases list.len() - i,
        {
            let ghost done = texts(shapes@);
            let entry = list[i].as_slice();
            assert(entry@ == texts(list@)[i as int]);
            let (source, local, has_rename) = split_rename(entry);
            let mut shape = copied(&source);
            if has_rename {
                push_str(&mut shape, ": ");
                push_all(&mut shape, &local);
            }
            assert(shape@ =~= pattern(entry@));
            shapes.push(shape);
            assert(texts(shapes@) =~= done.push(pattern(entry@)));
            assert(texts(list@).take(i + 1) =~= texts(list@).take(i as int).push(entry@));
            self.add_binding(&local, spec, &source);
            assert(list_bindings(texts(list@).take(i + 1), spec@) =~= list_bindings(
                texts(list@).take(i as int),
                spec@,
            ).push((local@, spec@, source@)));
            i += 1;
        }
        assert(texts(list@).take(list@.len() as int) =~= texts(list@));
        let ghost listed = self.imports_out@;
        push_str(&mut self.imports_out, "const { ");
        push_all(&mut self.imports_out, &join(&shapes, ", "));
        push_str(&mut self.imports_out, " } = ");
        push_all(&mut self.imports_out, &namespace(spec));
        push_str(&mut self.imports_out, ";\n");
        assert(self.imports_out@ =~= listed + ("const { "@ + joined(patterns(texts(list@)), ", "@)
            + " } = "@ + namespace_of(spec@) + ";\n"@));
        assert(self@ =~= with_import_list(before, texts(list@), spec@));
    }

    /// An import statement.
    fn import(&mut self, t: &[char])
        requires
            begins(t@, "import "@) || t@ == "import"@,
        ensures
            final(self)@ == with_import(old(self)@, t@),
    {
        proof {
            reveal_strlit("import ");
            reveal_strlit("import");
            assert(t@.len() == t.len());
        }
        let spec = find_specifier_or_empty(t);
        self.add_import(&spec);
        let body = tail(t, 6);
        let from = chars_of(" from ");
        proof {
            lemma_first_from(body@, from@, 0);
        }
        let clause: Vec<char> = match find_from(body, &from, 0) {
            Some(k) => {
                assert(body@.subrange(0, k as int) =~= body@.take(k as int));
                copied(trim(span(body, 0, k)))
            },
            None => Vec::new(),
        };
        assert(clause@ =~= import_clause(t@));
        proof {
            lemma_char_from(clause@, '{', 0);
        }
        if let Some(k) = find_char(&clause, '{', 0) {
            assert(clause@[k as int] == '{');
            assert(clause@.subrange(0, k as int) =~= clause@.take(k as int));
            let head = copied(trim(strip_trailing(trim(span(&clause, 0, k)), ',')));
            self.add_constant(&head, &spec, "default", &namespace_default(&spec));
            let list = find_braced_entries(t);
            self.import_list(&list, &spec);
        } else if starts_with(&clause, "* as ") {
            proof {
                reveal_strlit("* as ");
            }
            let name = copied(trim(tail(&clause, 5)));
            self.add_constant(&name, &spec, "*", &namespace(&spec));
        } else {
            self.add_constant(&clause, &spec, "default", &namespace_default(&spec));
        }
    }

    /// Where a local name is imported from.
    fn source_of(&self, name: &[char]) -> (r: Option<(Vec<char>, Vec<char>)>)
        ensures
            match r {
                Some(b) => bound(self@.bindings, name@) == Some((b.0@, b.1@)),
                None => bound(self@.bindings, name@) is None,
            },
    {
        let mut n: usize = self.bindings.len();
        let ghost all = triples(self.bindings@);
        assert(all.take(n as int) =~= all);
        while n > 0
            invariant
                n <= self.bindings.len(),
                all == triples(self.bindings@),
                bound(all, name@) == bound(all.take(n as int), name@),
            decreases n,
        {
            let b = &self.bindings[n - 1];
            assert(all.take(n as int).last() == (b.0@, b.1@, b.2@));
            assert(all.take(n as int).drop_last() =~= all.take(n - 1));
            if same(&b.0, name) {
                return Some((copied(&b.1), copied(&b.2)));
            }
            n -= 1;
        }
        None
    }

    /// The entries of an export list.
    fn export_entries(&mut self, list: &[Vec<char>], source: Option<&[char]>)
        ensures
            final(self)@ == with_export_entries(
                old(self)@,
                texts(list@),
                match source {
                    Some(s) => Some(s@),
                    None => None,
                },
            ),
    {
        let ghost before = self@;
        let ghost from = match source {
            Some(s) => Some(s@),
            None => None,
        };
        let mut i: usize = 0;
        while i < list.len()
            invariant
                i <= list.len(),
                from == (match source {
                    Some(s) => Some(s@),
                    None => None,
                }),
                self@ =~= with_export_entries(before, texts(list@).take(i as int), from),
            decreases list.len() - i,
        {
            let ghost now = self@;
            let entry = list[i].as_slice();
            assert(texts(list@).take(i + 1).last() == entry@);
            assert(texts(list@).take(i + 1).drop_last() =~= texts(list@).take(i as int));
            let (local, exported, _) = split_rename(entry);
            self.add_name(&exported);
            match source {
                Some(spec) => {
                    self.add_reexport(&exported, spec, &local);
                },
                None => match self.source_of(&local) {
                    Some((spec, name)) => {
                        self.add_reexport(&exported, &spec, &name);
                    },
                    None => {
                        self.add_export(&exported, &local);
                    },
                },
            }
            assert(self@ =~= with_export_entry(now, entry@, from));
            i += 1;
        }
        assert(texts(list@).take(list@.len() as int) =~= texts(list@));
    }

    /// `export { ... }` or `export { ... } from spec`.
    fn export_list(&mut self, t: &[char])
        ensures
            final(self)@ == with_export_list(old(self)@, t@),
    {
        let list = find_braced_entries(t);
        if contains(t, " from ") {
            let spec = find_specifier_or_empty(t);
            self.add_import(&spec);
            self.export_entries(&list, Some(&spec));
        } else {
            self.export_entries(&list, None);
        }
    }

    /// `export default expr`.
    fn default_export(&mut self, t: &[char])
        requires
            begins(t@, "export default "@),
        ensures
            final(self)@ == with_default_export(old(self)@, t@),
    {
        proof {
            reveal_strlit("export default ");
            assert(t@.len() == t.len());
        }
        self.add_name(&chars_of("default"));
        self.add_line("const __v8jsc_default = ", tail(t, 15));
        push_str(&mut self.exports_out, "__ns[\"default\"] = __v8jsc_default;\n");
    }

    /// An exported name, unless it is empty.
    fn exported_name(&mut self, name: &[char])
        ensures
            final(self)@ == with_exported_name(old(self)@, name@),
    {
        if name.len() > 0 {
            self.add_name(name);
            self.add_export(name, name);
        }
    }

    /// The names that the entries of a destructuring pattern declare.
    fn pattern_names(&mut self, list: &[Vec<char>])
        ensures
            final(self)@ == with_pattern_names(old(self)@, texts(list@)),
    {
        let ghost before = self@;
        let mut i: usize = 0;
        while i < list.len()
            invariant
                i <= list.len(),
                self@ =~= with_pattern_names(before, texts(list@).take(i as int)),
            decreases list.len() - i,
        {
            let entry = list[i].as_slice();
            assert(texts(list@).take(i + 1).last() == entry@);
            assert(texts(list@).take(i + 1).drop_last() =~= texts(list@).take(i as int));
            let name = name_prefix(local_in_pattern(entry).as_slice());
            self.exported_name(&name);
            i += 1;
        }
        assert(texts(list@).take(list@.len() as int) =~= texts(list@));
    }

    /// An exported declaration.
    fn declaration(&mut self, t: &[char])
        requires
            exports_declaration(t@),
        ensures
            final(self)@ == with_declaration(old(self)@, t@),
    {
        proof {
            reveal_strlit("export const ");
            reveal_strlit("export let ");
            reveal_strlit("export var ");
            reveal_strlit("export function ");
            reveal_strlit("export async function ");
            reveal_strlit("export class ");
            assert(t@.len() == t.len());
            assert(t@.len() >= 7);
        }
        let rest = tail(t, 7);
        let after = after_keywords(rest);
        self.add_line("", rest);
        proof {
            reveal_strlit("");
            assert(old(self)@.out + ""@ + rest@ + seq!['\n'] =~= old(self)@.out + rest@
                + seq!['\n']);
        }
        let first = trim_start(after);
        if first.len() > 0 && first[0] == '{' {
            let list = find_braced_entries(after);
            self.pattern_names(&list);
        } else {
            let name = name_prefix(after);
            self.exported_name(&name);
        }
    }

    /// One statement; whether it is accepted.
    fn statement(&mut self, line: &[char]) -> (r: bool)
        ensures
            match with_statement(old(self)@, line@) {
                Some(p) => r && final(self)@ == p,
                None => !r,
            },
    {
        let t = strip_leading(trim(line));
        if starts_with(t, "export *") {
            return self.star(t);
        }
        if starts_with(t, "import ") || is_text(t, "import") {
            self.import(t);
        } else if starts_with(t, "export {") || starts_with(t, "export{") {
            self.export_list(t);
        } else if starts_with(t, "export default ") {
            self.default_export(t);
        } else if starts_with(t, "export const ") || starts_with(t, "export let ") || starts_with(
            t,
            "export var ",
        ) || starts_with(t, "export function ") || starts_with(t, "export async function ")
            || starts_with(t, "export class ") {
            self.declaration(t);
        } else {
            self.add_line("", line);
            proof {
                reveal_strlit("");
                assert(old(self)@.out + ""@ + line@ + seq!['\n'] =~= old(self)@.out + line@
                    + seq!['\n']);
            }
        }
        true
    }

    /// The statements that perform the star exports.
    fn star_exports(&mut self)
        ensures
            final(self)@ == (Parts {
                exports_out: old(self)@.exports_out + star_texts(old(self)@.stars),
                ..old(self)@
            }),
    {
        let ghost before = self@;
        let mut i: usize = 0;
        assert(before.exports_out + star_texts(before.stars.take(0)) =~= before.exports_out);
        while i < self.stars.len()
            invariant
                i <= self.stars.len(),
                star_views(self.stars@) == before.stars,
                self@ =~= (Parts {
                    exports_out: before.exports_out + star_texts(before.stars.take(i as int)),
                    ..before
                }),
            decreases before.stars.len() - i,
        {
            let ghost now = self.exports_out@;
            let spec = copied(&self.stars[i].0);
            let name: Vec<char> = match &self.stars[i].1 {
                Some(n) => copied(n),
                None => Vec::new(),
            };
            let ghost star = before.stars[i as int];
            assert(star_views(self.stars@)[i as int] == star);
            assert(before.stars.take(i + 1).last() == star);
            assert(before.stars.take(i + 1).drop_last() =~= before.stars.take(i as int));
            let expr = namespace(&spec);
            if name.len() > 0 {
                self.add_export(&name, &expr);
            } else {
                push_str(&mut self.exports_out, "{const __se=");
                push_all(&mut self.exports_out, &expr);
                push_str(
                    &mut self.exports_out,
                    ";for(const __k of Object.keys(__se)){if(__k!==\"default\"&&!Object.prototype.hasOwnProperty.call(__ns,__k)){Object.defineProperty(__ns,__k,{get:((k)=>()=>__se[k])(__k),enumerable:true,configurable:true});}}}\n",
                );
            }
            assert(self.exports_out@ =~= now + star_text(star.0, star.1));
            assert(self@.stars.len() == self.stars@.len());
            i += 1;
        }
        assert(before.stars.take(before.stars.len() as int) =~= before.stars);
    }
}

/// What follows the declaration keywords.
fn after_keywords(rest: &[char]) -> (r: &[char])
    ensures
        r@ == declared(rest@),
{
    proof {
        reveal_strlit("const ");
        reveal_strlit("let ");
        reveal_strlit("var ");
        reveal_strlit("async function ");
        reveal_strlit("function ");
        reveal_strlit("class ");
    }
    let r = strip_prefixes(rest, "const ");
    let r = strip_prefixes(r, "let ");
    let r = strip_prefixes(r, "var ");
    let r = strip_prefixes(r, "async function ");
    let r = strip_prefixes(r, "function ");
    strip_prefixes(r, "class ")
}

/// A text has at least one piece.
proof fn lemma_pieces_of(s: Seq<char>, c: char)
    ensures
        pieces_of(s, c).len() > 0,
{
    lemma_char_from(s, c, 0);
}

/// The local name in an entry of a destructuring pattern.
fn local_in_pattern(entry: &[char]) -> (r: Vec<char>)
    ensures
        r@ == pattern_local(entry@),
{
    proof {
        lemma_pieces_of(entry@, ':');
    }
    let sides = split(entry, ':');
    assert(texts(sides@).last() == sides@[sides@.len() - 1]@);
    let last = sides[sides.len() - 1].as_slice();
    proof {
        lemma_pieces_of(last@, '=');
    }
    let parts = split(last, '=');
    assert(texts(parts@)[0] == parts@[0]@);
    copied(trim(&parts[0]))
}

/// A module turned into a script.
pub struct RewrittenModule {
    /// The script, which reads `__v8jsc_meta` and assigns to `__ns`.
    pub body: String,
    /// The exported names.
    pub export_names: Vec<String>,
    /// The specifiers of the modules it imports or re-exports from.
    pub imports: Vec<String>,
    /// Whether it awaits at its top level.
    pub is_async: bool,
    /// Exported name, source specifier and name in the source, of each live re-export.
    pub reexports: Vec<(String, String, String)>,
}

/// The views of a list of string triples.
pub open spec fn string_triples(v: Seq<(String, String, String)>) -> Seq<Binding> {
    Seq::new(v.len(), |i: int| (v[i].0@, v[i].1@, v[i].2@))
}

impl View for RewrittenModule {
    type V = Rewritten;

    open spec fn view(&self) -> Rewritten {
        Rewritten {
            body: self.body@,
            export_names: strings(self.export_names@),
            imports: strings(self.imports@),
            is_async: self.is_async,
            reexports: string_triples(self.reexports@),
        }
    }
}

/// The strings with these characters.
fn to_strings(v: &[Vec<char>]) -> (r: Vec<String>)
    ensures
        strings(r@) == texts(v@),
{
    let mut out: Vec<String> = Vec::new();
    let mut i: usize = 0;
    while i < v.len()
        invariant
            i <= v.len(),
            strings(out@) =~= texts(v@).take(i as int),
        decreases v.len() - i,
    {
        let ghost before = strings(out@);
        out.push(string_of(&v[i]));
        assert(strings(out@) =~= before.push(texts(v@)[i as int]));
        i += 1;
    }
    assert(texts(v@).take(v@.len() as int) =~= texts(v@));
    out
}

/// The string triples with these characters.
fn to_string_triples(v: &[(Vec<char>, Vec<char>, Vec<char>)]) -> (r: Vec<(String, String, String)>)
    ensures
        string_triples(r@) == triples(v@),
{
    let mut out: Vec<(String, String, String)> = Vec::new();
    let mut i: usize = 0;
    while i < v.len()
        invariant
            i <= v.len(),
            string_triples(out@) =~= triples(v@).take(i as int),
        decreases v.len() - i,
    {
        let ghost before = string_triples(out@);
        out.push((string_of(&v[i].0), string_of(&v[i].1), string_of(&v[i].2)));
        assert(string_triples(out@) =~= before.push(triples(v@)[i as int]));
        i += 1;
    }
    assert(triples(v@).take(v@.len() as int) =~= triples(v@));
    out
}

/// Turns the module `src` into a script that fills the namespace `__ns`. A star export that names no
/// module is refused.
pub fn rewrite_es_module(src: &str) -> (r: Option<RewrittenModule>)
    ensures
        match r {
            Some(m) => rewritten(src@) == Some(m@),
            None => rewritten(src@) is None,
        },
{
    let s = chars_of(src);
    let lines = join_statements(&strip_comments(&s));
    let ghost all = texts(lines@);
    let mut draft = Draft::new();
    let mut i: usize = 0;
    while i < lines.len()
        invariant
            i <= lines.len(),
            all == texts(lines@),
            all == statements(without_comments(src@)),
            with_statements(all.take(i as int)) == Some(draft@),
        decreases lines.len() - i,
    {
        let line = lines[i].as_slice();
        assert(all.take(i + 1).last() == line@);
        assert(all.take(i + 1).drop_last() =~= all.take(i as int));
        if !draft.statement(line) {
            proof {
                lemma_refused(all, i + 1);
            }
            return None;
        }
        i += 1;
    }
    assert(all.take(all.len() as int) =~= all);
    let ghost parts = draft@;
    draft.star_exports();
    let mut script = draft.imports_out;
    push_all(&mut script, &draft.out);
    push_all(&mut script, &draft.exports_out);
    assert(script@ =~= parts.imports_out + parts.out + (parts.exports_out + star_texts(parts.stars)));
    proof {
        reveal_strlit("import.meta");
    }
    let body = string_of(&replace(&script, "import.meta", "__v8jsc_meta"));
    let r = RewrittenModule {
        body,
        export_names: to_strings(&draft.export_names),
        imports: to_strings(&draft.imports),
        is_async: has_top_level_await(src),
        reexports: to_string_triples(&draft.reexports),
    };
    assert(r@ =~= rewritten(src@)->0);
    Some(r)
}

/// A module is refused as soon as one of its statements is.
proof fn lemma_refused(lines: Seq<Seq<char>>, n: int)
    requires
        0 <= n <= lines.len(),
        with_statements(lines.take(n)) is None,
    ensures
        with_statements(lines) is None,
    decreases lines.len() - n,
{
    if n < lines.len() {
        assert(lines.take(n + 1).drop_last() =~= lines.take(n));
        lemma_refused(lines, n + 1);
    } else {
        assert(lines.take(n) =~= lines);
    }
}

} // verus!
