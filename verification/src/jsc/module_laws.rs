//! What is told of modules: their status, namespace, requests and metadata.

use crate::jsc::module::{
    dump_file_name, graph_async, import_meta, is_path, module_requests, namespace_answer,
    passable_names, reaches, read_request, sanitized, set_synthetic_module_export, shown_status,
    synthetic_record, three_digits, ExportTarget, ImportMeta, ModuleRecord, NamespaceAnswer,
    RequestRead,
};
use crate::status::ModuleStatus;
use crate::text::{decimal, letter_or_digit};
use crate::text_laws::{law_decimal_digits, number};
use vstd::prelude::*;
use vstd::utf8::char_u32_cast;

verus! {

/// An unknown module counts as failed; the engine's own record tells its status, and without one the layer's
/// does, where code that runs counts as evaluated.
pub proof fn law_status_that_is_shown(status: ModuleStatus, native: Option<i32>, running: bool, n: i32)
    ensures
        shown_status(None, native, running) == ModuleStatus::Errored,
        shown_status(Some(status), Some(0), running) == ModuleStatus::Uninstantiated,
        shown_status(Some(status), Some(1), running) == ModuleStatus::Instantiating,
        shown_status(Some(status), Some(2), running) == ModuleStatus::Instantiated,
        shown_status(Some(status), Some(3), running) == ModuleStatus::Evaluating,
        shown_status(Some(status), Some(4), running) == ModuleStatus::Evaluated,
        n < 0 || n > 4 ==> shown_status(Some(status), Some(n), running) == shown_status(
            Some(status),
            None,
            running,
        ),
        status != ModuleStatus::Evaluating ==> shown_status(Some(status), None, running) == status,
        shown_status(Some(ModuleStatus::Evaluating), None, true) == ModuleStatus::Evaluated,
        shown_status(Some(ModuleStatus::Evaluating), None, false) == ModuleStatus::Evaluating,
{
}

/// A namespace that is there is kept; else the engine's record is asked, if there is one.
pub proof fn law_namespace_answers(g: Seq<ModuleRecord>, id: usize)
    ensures
        id >= g.len() ==> namespace_answer(g, id) == NamespaceAnswer::Absent,
        id < g.len() && g[id as int].has_namespace ==> namespace_answer(g, id)
            == NamespaceAnswer::Kept,
        id < g.len() && !g[id as int].has_namespace && g[id as int].native ==> namespace_answer(g, id)
            == NamespaceAnswer::AskRecord,
        id < g.len() && !g[id as int].has_namespace && !g[id as int].native ==> namespace_answer(
            g,
            id,
        ) == NamespaceAnswer::Absent,
{
}

/// There is a request for each specifier, in order; only the engine's own record knows attributes, and a
/// specifier with a NUL is not passed on.
pub proof fn law_requests_of_a_module(m: ModuleRecord, codes: Seq<i32>, i: int)
    requires
        0 <= i < m.import_specifiers@.len(),
        codes.len() >= m.import_specifiers@.len(),
    ensures
        module_requests(m, codes).len() == m.import_specifiers@.len(),
        !m.import_specifiers@[i]@.contains('\0') ==> module_requests(m, codes)[i].0 == Some(
            m.import_specifiers@[i]@,
        ),
        m.import_specifiers@[i]@.contains('\0') ==> module_requests(m, codes)[i].0 is None,
        m.native ==> module_requests(m, codes)[i].1 == codes[i],
        !m.native ==> module_requests(m, codes)[i].1 == 0,
{
}

/// Names are passed on in order, those with a NUL left out.
pub proof fn law_names_passed_on(names: Seq<Seq<char>>, name: Seq<char>)
    ensures
        name.contains('\0') ==> passable_names(names.push(name)) == passable_names(names),
        !name.contains('\0') ==> passable_names(names.push(name)) == passable_names(names).push(name),
        passable_names(seq![]).len() == 0,
{
    assert(names.push(name).drop_last() =~= names);
}

proof fn lemma_zeros(n: nat, d: Seq<char>)
    ensures
        number(Seq::new(n, |i: int| '0') + d) == number(d),
        number(Seq::new(n, |i: int| '0')) == 0,
    decreases n + d.len(),
{
    let z = Seq::new(n, |i: int| '0');
    if d.len() > 0 {
        assert((z + d).drop_last() =~= z + d.drop_last());
        lemma_zeros(n, d.drop_last());
    } else {
        assert(z + d =~= z);
        if n > 0 {
            assert(z.drop_last() =~= Seq::new((n - 1) as nat, |i: int| '0'));
            lemma_zeros((n - 1) as nat, d);
        }
    }
}

/// The number of a file is written with at least three digits, and with no zeros before more than that.
pub proof fn law_numbers_of_files(n: nat)
    ensures
        number(three_digits(n)) == n,
        three_digits(n).len() >= 3,
        three_digits(n).len() > 3 ==> three_digits(n)[0] != '0',
{
    law_decimal_digits(n);
    let d = decimal(n);
    if d.len() < 3 {
        lemma_zeros((3 - d.len()) as nat, d);
    } else if d.len() > 3 && n == 0 {
        assert(decimal(0).len() == 1);
    }
}

/// ASCII letters and digits stay, and any other ASCII character becomes an underscore.
pub proof fn law_sanitized(s: Seq<char>, i: int)
    requires
        0 <= i < s.len(),
        s[i] <= '~',
    ensures
        sanitized(s).len() == s.len(),
        sanitized(s)[i] == if 'a' <= s[i] <= 'z' || 'A' <= s[i] <= 'Z' || '0' <= s[i] <= '9' {
            s[i]
        } else {
            '_'
        },
{
    let c = s[i];
    char_u32_cast(c, c as u32);
    assert(letter_or_digit(c) == ('a' <= c <= 'z' || 'A' <= c <= 'Z' || '0' <= c <= '9'));
}

/// A file is named by its number and its specifier.
pub proof fn law_name_of_a_file(index: u64, specifier: &str, r: String)
    requires
        call_ensures(dump_file_name, (index, specifier), r),
    ensures
        r@ == three_digits(index as nat) + "."@ + sanitized(specifier@) + ".js"@,
{
    reveal_strlit(".");
    assert("."@ =~= seq!['.']);
}

/// What the engine answers to a request: none, so many bytes, or too many for the buffer, which then is made
/// large enough.
pub proof fn law_reading_requests(n: i32, capacity: usize, r: RequestRead)
    requires
        call_ensures(read_request, (n, capacity), r),
    ensures
        r == RequestRead::Skip <==> n < 0,
        r matches RequestRead::Take(k) ==> k == n && k < capacity,
        r matches RequestRead::Again(k) ==> k == n + 1 && k > capacity,
{
}

/// `import.meta` is filled by the host for a module that it knows, and holds the address of any other.
pub proof fn law_import_meta(known: bool, callback: bool, key: bool, r: ImportMeta, none: ImportMeta)
    requires
        call_ensures(import_meta, (true, known, callback, key), r),
        call_ensures(import_meta, (false, known, callback, key), none),
    ensures
        none == ImportMeta::Missing,
        r == ImportMeta::FilledByHost <==> known && callback,
        r == ImportMeta::Address <==> !known && key,
        r != ImportMeta::Missing,
{
}

/// An export goes to the namespace, and to the engine's record where there is one and it can have the name.
pub proof fn law_export_targets(g: &[ModuleRecord], id: usize, name: &str, r: ExportTarget, none: ExportTarget)
    requires
        call_ensures(set_synthetic_module_export, (g, id, Some(name)), r),
        call_ensures(set_synthetic_module_export, (g, id, None), none),
    ensures
        none == ExportTarget::Nowhere,
        r == ExportTarget::Nowhere <==> id >= g@.len() || !g@[id as int].has_namespace,
        r == ExportTarget::NamespaceAndRecord <==> id < g@.len() && g@[id as int].has_namespace
            && g@[id as int].native && !name@.contains('\0'),
{
}

/// A module that awaits makes its graph asynchronous; one without dependencies is judged by itself.
pub proof fn law_async_modules(g: Seq<ModuleRecord>, m: usize)
    requires
        m < g.len(),
    ensures
        g[m as int].is_async ==> graph_async(g, m),
        g[m as int].dependencies@.len() == 0 ==> graph_async(g, m) == g[m as int].is_async,
{
    let p = seq![m];
    assert(is_path(g, p));
    assert(p[0] == m && p.last() == m);
    assert(reaches(g, m, m));
    if g[m as int].dependencies@.len() == 0 && graph_async(g, m) {
        let k = choose|k: usize| k < g.len() && g[k as int].is_async && #[trigger] reaches(g, m, k);
        let q = choose|q: Seq<usize>| #[trigger] is_path(g, q) && q[0] == m && q.last() == k;
        if q.len() > 1 {
            assert(g[q[0] as int].dependencies@.contains(q[1]));
        }
    }
}

/// A graph in which no module awaits is not asynchronous.
pub proof fn law_synchronous_graphs(g: Seq<ModuleRecord>, root: usize)
    requires
        forall|m: int| 0 <= m < g.len() ==> !(#[trigger] g[m]).is_async,
    ensures
        !graph_async(g, root),
{
}

/// A module that the embedder fills in has its namespace from the beginning, asks for nothing and runs its
/// steps.
pub proof fn law_synthetic_records(specifier: String, names: Vec<String>, native: bool, r: ModuleRecord)
    requires
        call_ensures(synthetic_record, (specifier, names, native), r),
    ensures
        r.status == ModuleStatus::Uninstantiated,
        r.has_steps && r.has_namespace && !r.is_async && r.source is None,
        r.import_specifiers@.len() == 0 && r.dependencies@.len() == 0,
        r.export_names == names && r.specifier == specifier && r.native == native,
{
}

} // verus!
