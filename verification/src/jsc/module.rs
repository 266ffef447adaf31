//! Module records and the graph that they form.

use crate::jsc::rewrite::{rewrite_es_module, rewritten};
use crate::jsc::top_level_await::{awaits, has_top_level_await};
use crate::jsc::wrap::{unsupported_syntax, unsupported_text};
use crate::status::ModuleStatus;
use crate::text::{
    chars_of, copy_without_nul, decimal, decimal_of, has_nul, letter_or_digit, optional, push_all,
    push_str, string_of, strings, without_nul,
};
use vstd::prelude::*;

verus! {

/// What the layer keeps of a module. Modules are known by their number.
pub struct ModuleRecord {
    /// How far it has come.
    pub status: ModuleStatus,
    /// The names that it exports.
    pub export_names: Vec<String>,
    /// Whether the embedder provides steps that evaluate it.
    pub has_steps: bool,
    /// The script that evaluates it.
    pub source: Option<String>,
    /// The specifiers that it imports, in order.
    pub import_specifiers: Vec<String>,
    /// Whether it has a namespace object.
    pub has_namespace: bool,
    /// Its own address.
    pub specifier: String,
    /// The modules that its specifiers were resolved to.
    pub dependencies: Vec<usize>,
    /// Whether it awaits at its top level.
    pub is_async: bool,
    /// Whether the engine has a record of its own for it.
    pub native: bool,
}

/// A module as it comes from the engine's own parser, which found `requests` in it.
pub fn native_record(text: &str, specifier: String, requests: Vec<String>) -> (r: ModuleRecord)
    ensures
        r.status == ModuleStatus::Uninstantiated,
        r.export_names@.len() == 0,
        !r.has_steps,
        r.source is None,
        r.import_specifiers == requests,
        !r.has_namespace,
        r.specifier == specifier,
        r.dependencies@.len() == 0,
        r.is_async == awaits(text@),
        r.native,
{
    ModuleRecord {
        status: ModuleStatus::Uninstantiated,
        export_names: Vec::new(),
        has_steps: false,
        source: None,
        import_specifiers: requests,
        has_namespace: false,
        specifier,
        dependencies: Vec::new(),
        is_async: has_top_level_await(text),
        native: true,
    }
}

/// What the embedder gets for a module that the rewriter took.
pub struct CompiledModule {
    /// The record.
    pub record: ModuleRecord,
    /// The live re-exports to install on its namespace.
    pub reexports: Vec<(String, String, String)>,
}

/// Compiles the module text `text` by rewriting it; the error is the message of the exception to
/// raise.
pub fn compile_module(text: &str, specifier: String) -> (r: Result<CompiledModule, String>)
    ensures
        match r {
            Ok(m) => {
                &&& rewritten(text@) matches Some(w)
                &&& m.record.status == ModuleStatus::Uninstantiated
                &&& strings(m.record.export_names@) == w.export_names
                &&& !m.record.has_steps
                &&& m.record.source matches Some(body)
                &&& body@ == w.body
                &&& strings(m.record.import_specifiers@) == w.imports
                &&& m.record.has_namespace
                &&& m.record.specifier == specifier
                &&& m.record.dependencies@.len() == 0
                &&& m.record.is_async == w.is_async
                &&& !m.record.native
                &&& crate::jsc::rewrite::string_triples(m.reexports@) == w.reexports
            },
            Err(message) => rewritten(text@) is None && message@ == unsupported_text(specifier@),
        },
{
    match rewrite_es_module(text) {
        None => Err(unsupported_syntax(&specifier)),
        Some(w) => Ok(
            CompiledModule {
                record: ModuleRecord {
                    status: ModuleStatus::Uninstantiated,
                    export_names: w.export_names,
                    has_steps: false,
                    source: Some(w.body),
                    import_specifiers: w.imports,
                    has_namespace: true,
                    specifier,
                    dependencies: Vec::new(),
                    is_async: w.is_async,
                    native: false,
                },
                reexports: w.reexports,
            },
        ),
    }
}

/// A module whose exports the embedder fills in.
pub fn synthetic_record(specifier: String, export_names: Vec<String>, native: bool) -> (r:
    ModuleRecord)
    ensures
        r.status == ModuleStatus::Uninstantiated,
        r.export_names == export_names,
        r.has_steps,
        r.source is None,
        r.import_specifiers@.len() == 0,
        r.has_namespace,
        r.specifier == specifier,
        r.dependencies@.len() == 0,
        !r.is_async,
        r.native == native,
{
    ModuleRecord {
        status: ModuleStatus::Uninstantiated,
        export_names,
        has_steps: true,
        source: None,
        import_specifiers: Vec::new(),
        has_namespace: true,
        specifier,
        dependencies: Vec::new(),
        is_async: false,
        native,
    }
}

/// What to do about one module request that the engine reported with a length of `n` bytes, read into
/// a buffer of `capacity` bytes.
#[derive(Clone, Copy, PartialEq, Eq, Structural, Debug)]
pub enum RequestRead {
    /// There is no such request.
    Skip,
    /// The first so many bytes are its specifier.
    Take(usize),
    /// It did not fit: read it again into a buffer of so many bytes.
    Again(usize),
}

/// Decides about one module request.
pub fn read_request(n: i32, capacity: usize) -> (r: RequestRead)
    ensures
        n < 0 ==> r == RequestRead::Skip,
        0 <= n < capacity ==> r == RequestRead::Take(n as usize),
        n >= 0 && n >= capacity ==> r == RequestRead::Again((n + 1) as usize),
{
    if n < 0 {
        RequestRead::Skip
    } else if (n as usize) < capacity {
        RequestRead::Take(n as usize)
    } else {
        RequestRead::Again(n as usize + 1)
    }
}

/// The path `p` leads from one dependency to the next in `g`.
pub open spec fn is_path(g: Seq<ModuleRecord>, p: Seq<usize>) -> bool {
    &&& p.len() > 0
    &&& forall|i: int|
        0 <= i < p.len() - 1 ==> (#[trigger] p[i]) < g.len() && g[p[i] as int].dependencies@.contains(
            p[i + 1],
        )
}

/// There is a path from `a` to `b`.
pub open spec fn reaches(g: Seq<ModuleRecord>, a: usize, b: usize) -> bool {
    exists|p: Seq<usize>| #[trigger] is_path(g, p) && p[0] == a && p.last() == b
}

/// Some module that can be reached from `root`, itself included, awaits at its top level.
pub open spec fn graph_async(g: Seq<ModuleRecord>, root: usize) -> bool {
    exists|m: usize| m < g.len() && g[m as int].is_async && #[trigger] reaches(g, root, m)
}

spec fn unseen(seen: Seq<bool>) -> nat
    decreases seen.len(),
{
    if seen.len() == 0 {
        0
    } else {
        unseen(seen.drop_last()) + if seen.last() {
            0nat
        } else {
            1nat
        }
    }
}

proof fn lemma_unseen_update(seen: Seq<bool>, i: int)
    requires
        0 <= i < seen.len(),
        !seen[i],
    ensures
        unseen(seen.update(i, true)) + 1 == unseen(seen),
    decreases seen.len(),
{
    let u = seen.update(i, true);
    if i == seen.len() - 1 {
        assert(u.drop_last() =~= seen.drop_last());
    } else {
        assert(u.drop_last() =~= seen.drop_last().update(i, true));
        lemma_unseen_update(seen.drop_last(), i);
    }
}

proof fn lemma_reach_step(g: Seq<ModuleRecord>, a: usize, b: usize, c: usize)
    requires
        reaches(g, a, b),
        b < g.len(),
        g[b as int].dependencies@.contains(c),
    ensures
        reaches(g, a, c),
{
    let p = choose|p: Seq<usize>| #[trigger] is_path(g, p) && p[0] == a && p.last() == b;
    let q = p.push(c);
    assert forall|i: int| 0 <= i < q.len() - 1 implies (#[trigger] q[i]) < g.len()
        && g[q[i] as int].dependencies@.contains(q[i + 1]) by {
        if i < p.len() - 1 {
            assert(p[i] < g.len());
            assert(q[i] == p[i] && q[i + 1] == p[i + 1]);
        }
    }
    assert(is_path(g, q));
}

/// A set of modules that holds `p[0]` and with each module its dependencies holds all of `p`.
proof fn lemma_closed_holds_path(g: Seq<ModuleRecord>, seen: Seq<bool>, p: Seq<usize>, k: int)
    requires
        seen.len() == g.len(),
        is_path(g, p),
        p[0] < g.len() ==> seen[p[0] as int],
        forall|m: int, d: usize|
            0 <= m < g.len() && seen[m] && #[trigger] g[m].dependencies@.contains(d) && d < g.len()
                ==> seen[d as int],
        0 <= k < p.len(),
    ensures
        p[k] < g.len() ==> seen[p[k] as int],
    decreases k,
{
    if k > 0 {
        lemma_closed_holds_path(g, seen, p, k - 1);
        assert(p[k - 1] < g.len() && g[p[k - 1] as int].dependencies@.contains(p[k - 1 + 1]));
    }
}

/// Whether a module that can be reached from `root`, itself included, awaits at its top level.
pub fn is_graph_async(g: &[ModuleRecord], root: usize) -> (r: bool)
    ensures
        r == graph_async(g@, root),
{
    let n = g.len();
    let mut seen: Vec<bool> = Vec::new();
    while seen.len() < n
        invariant
            seen.len() <= n,
            forall|i: int| 0 <= i < seen.len() ==> !seen@[i],
        decreases n - seen.len(),
    {
        seen.push(false);
    }
    let mut stack: Vec<usize> = Vec::new();
    stack.push(root);
    proof {
        let p = seq![root];
        assert(is_path(g@, p));
        assert(reaches(g@, root, root));
        assert(stack@[0] == root);
    }
    while stack.len() > 0
        invariant
            n == g.len(),
            seen.len() == n,
            forall|i: int| 0 <= i < stack.len() ==> reaches(g@, root, #[trigger] stack@[i]),
            forall|m: int| 0 <= m < n && seen@[m] ==> !(#[trigger] g@[m]).is_async,
            root < n ==> seen@[root as int] || stack@.contains(root),
            forall|m: int, d: usize|
                0 <= m < n && seen@[m] && #[trigger] g@[m].dependencies@.contains(d) && d < n
                    ==> seen@[d as int] || stack@.contains(d),
        decreases unseen(seen@), stack.len(),
    {
        let ghost before = stack@;
        let m = stack.pop().unwrap();
        assert(before.last() == m);
        assert(reaches(g@, root, before[before.len() - 1]));
        assert forall|x: usize| before.contains(x) && x != m implies stack@.contains(x) by {
            let i = choose|i: int| 0 <= i < before.len() && before[i] == x;
            assert(stack@[i] == x);
        }
        if m < n && !seen[m] {
            if g[m].is_async {
                return true;
            }
            proof {
                lemma_unseen_update(seen@, m as int);
            }
            seen.set(m, true);
            let mut k: usize = 0;
            let ghost popped = stack@;
            while k < g[m].dependencies.len()
                invariant
                    m < n,
                    n == g.len(),
                    k <= g@[m as int].dependencies.len(),
                    reaches(g@, root, m),
                    forall|i: int| 0 <= i < stack.len() ==> reaches(g@, root, #[trigger] stack@[i]),
                    forall|x: usize| popped.contains(x) ==> #[trigger] stack@.contains(x),
                    forall|i: int|
                        0 <= i < k ==> stack@.contains(
                            #[trigger] g@[m as int].dependencies@[i],
                        ),
                decreases g@[m as int].dependencies.len() - k,
            {
                let d = g[m].dependencies[k];
                proof {
                    assert(g@[m as int].dependencies@.contains(d));
                    lemma_reach_step(g@, root, m, d);
                }
                let ghost earlier = stack@;
                stack.push(d);
                assert(stack@[earlier.len() as int] == d);
                assert forall|x: usize| earlier.contains(x) implies #[trigger] stack@.contains(
                    x,
                ) by {
                    let i = choose|i: int| 0 <= i < earlier.len() && earlier[i] == x;
                    assert(stack@[i] == x);
                }
                k += 1;
            }
        }
    }
    proof {
        assert forall|m: usize| m < g@.len() && #[trigger] reaches(
            g@,
            root,
            m,
        ) implies !g@[m as int].is_async by {
            let p = choose|p: Seq<usize>|
                #[trigger] is_path(g@, p) && p[0] == root && p.last() == m;
            lemma_closed_holds_path(g@, seen@, p, p.len() - 1);
        }
    }
    false
}

/// The status that a module shows. The engine's own record counts where it knows one (`native`, from
/// 0 for uninstantiated to 4 for evaluated); a module whose body is running shows as evaluated, so
/// that a module in a cycle gets its namespace as far as it is filled; an unknown module shows as
/// errored.
pub open spec fn shown_status(m: Option<ModuleStatus>, native: Option<i32>, running: bool) -> ModuleStatus {
    match m {
        None => ModuleStatus::Errored,
        Some(status) => match native {
            Some(0) => ModuleStatus::Uninstantiated,
            Some(1) => ModuleStatus::Instantiating,
            Some(2) => ModuleStatus::Instantiated,
            Some(3) => ModuleStatus::Evaluating,
            Some(4) => ModuleStatus::Evaluated,
            _ => if status == ModuleStatus::Evaluating && running {
                ModuleStatus::Evaluated
            } else {
                status
            },
        },
    }
}

/// The status that the module `id` shows; `native` is the engine's own account of it, where the engine
/// has a record, and `running` lists the modules whose bodies run.
pub fn get_status(g: &[ModuleRecord], id: usize, native: Option<i32>, running: &[usize]) -> (r:
    ModuleStatus)
    ensures
        r == shown_status(
            if id < g@.len() {
                Some(g@[id as int].status)
            } else {
                None
            },
            if id < g@.len() && g@[id as int].native {
                native
            } else {
                None
            },
            running@.contains(id),
        ),
{
    if id >= g.len() {
        return ModuleStatus::Errored;
    }
    if g[id].native {
        match native {
            Some(0) => {
                return ModuleStatus::Uninstantiated;
            },
            Some(1) => {
                return ModuleStatus::Instantiating;
            },
            Some(2) => {
                return ModuleStatus::Instantiated;
            },
            Some(3) => {
                return ModuleStatus::Evaluating;
            },
            Some(4) => {
                return ModuleStatus::Evaluated;
            },
            _ => {},
        }
    }
    if g[id].status == ModuleStatus::Evaluating && holds(running, id) {
        ModuleStatus::Evaluated
    } else {
        g[id].status
    }
}

/// Whether `id` is in the list.
pub fn holds(list: &[usize], id: usize) -> (r: bool)
    ensures
        r == list@.contains(id),
{
    let mut i: usize = 0;
    while i < list.len()
        invariant
            i <= list.len(),
            forall|j: int| 0 <= j < i ==> list@[j] != id,
        decreases list.len() - i,
    {
        if list[i] == id {
            return true;
        }
        i += 1;
    }
    false
}

/// What is answered to a question for the namespace of a module.
#[derive(Clone, Copy, PartialEq, Eq, Structural, Debug)]
pub enum NamespaceAnswer {
    /// The namespace that is kept.
    Kept,
    /// What the engine's own record has.
    AskRecord,
    /// Nothing.
    Absent,
}

/// The answer to a question for the namespace of the module `id`.
pub open spec fn namespace_answer(g: Seq<ModuleRecord>, id: usize) -> NamespaceAnswer {
    if id >= g.len() {
        NamespaceAnswer::Absent
    } else if g[id as int].has_namespace {
        NamespaceAnswer::Kept
    } else if g[id as int].native {
        NamespaceAnswer::AskRecord
    } else {
        NamespaceAnswer::Absent
    }
}

/// The answer to a question for the namespace of the module `id`.
pub fn get_module_namespace(g: &[ModuleRecord], id: usize) -> (r: NamespaceAnswer)
    ensures
        r == namespace_answer(g@, id),
{
    if id >= g.len() {
        NamespaceAnswer::Absent
    } else if g[id].has_namespace {
        NamespaceAnswer::Kept
    } else if g[id].native {
        NamespaceAnswer::AskRecord
    } else {
        NamespaceAnswer::Absent
    }
}

/// Notes what the engine's own record of the module `id` had for a namespace; it is kept if there was one.
pub fn namespace_found(g: &mut Vec<ModuleRecord>, id: usize, found: bool)
    requires
        namespace_answer(old(g)@, id) == NamespaceAnswer::AskRecord,
    ensures
        final(g)@ == old(g)@.update(
            id as int,
            ModuleRecord { has_namespace: found, ..old(g)@[id as int] },
        ),
{
    g[id].has_namespace = found;
}

/// Where an export that the embedder sets goes.
#[derive(Clone, Copy, PartialEq, Eq, Structural, Debug)]
pub enum ExportTarget {
    /// Nowhere: the embedder is told that it failed.
    Nowhere,
    /// To the namespace.
    Namespace,
    /// To the namespace and to the engine's own record.
    NamespaceAndRecord,
}

/// Where the export `name` of the module `id` goes; `name` is missing where it could not be read.
pub fn set_synthetic_module_export(g: &[ModuleRecord], id: usize, name: Option<&str>) -> (r:
    ExportTarget)
    ensures
        r == if id >= g@.len() || name is None || !g@[id as int].has_namespace {
            ExportTarget::Nowhere
        } else if g@[id as int].native && !(name->0)@.contains('\0') {
            ExportTarget::NamespaceAndRecord
        } else {
            ExportTarget::Namespace
        },
{
    match name {
        None => ExportTarget::Nowhere,
        Some(name) => if id >= g.len() || !g[id].has_namespace {
            ExportTarget::Nowhere
        } else if g[id].native && !has_nul(name) {
            ExportTarget::NamespaceAndRecord
        } else {
            ExportTarget::Namespace
        },
    }
}

/// A request of a module for another one.
pub struct ModuleRequest {
    /// The specifier, unless it holds a NUL.
    pub specifier: Option<String>,
    /// The code of its `type` attribute; 0 stands for none.
    pub attribute: i32,
}

/// The requests as plain values: the specifier, the code of the attribute.
pub open spec fn request_views(v: Seq<ModuleRequest>) -> Seq<(Option<Seq<char>>, i32)> {
    Seq::new(v.len(), |i: int| (optional(v[i].specifier), v[i].attribute))
}

/// The requests of a module for `specifiers`, whose attribute codes are `codes` if the engine has a record
/// of its own.
pub open spec fn module_requests(m: ModuleRecord, codes: Seq<i32>) -> Seq<(Option<Seq<char>>, i32)> {
    Seq::new(
        m.import_specifiers@.len(),
        |i: int|
            (
                without_nul(m.import_specifiers@[i]@),
                if m.native {
                    codes[i]
                } else {
                    0
                },
            ),
    )
}

/// The requests of the module `id`, none if it is not known; `codes` has a code for each of its specifiers.
pub fn get_module_requests(g: &[ModuleRecord], id: usize, codes: &[i32]) -> (r: Vec<ModuleRequest>)
    requires
        id < g@.len() ==> codes@.len() >= g@[id as int].import_specifiers@.len(),
    ensures
        request_views(r@) == if id < g@.len() {
            module_requests(g@[id as int], codes@)
        } else {
            seq![]
        },
{
    let mut r: Vec<ModuleRequest> = Vec::new();
    if id >= g.len() {
        assert(request_views(r@) =~= seq![]);
        return r;
    }
    let ghost all = module_requests(g@[id as int], codes@);
    let mut i: usize = 0;
    while i < g[id].import_specifiers.len()
        invariant
            id < g@.len(),
            codes@.len() >= g@[id as int].import_specifiers@.len(),
            i <= g@[id as int].import_specifiers@.len(),
            all == module_requests(g@[id as int], codes@),
            request_views(r@) =~= all.take(i as int),
        decreases g@[id as int].import_specifiers@.len() - i,
    {
        let ghost done = request_views(r@);
        let attribute: i32 = if g[id].native {
            codes[i]
        } else {
            0
        };
        r.push(
            ModuleRequest { specifier: copy_without_nul(&g[id].import_specifiers[i]), attribute },
        );
        assert(request_views(r@) =~= done.push(all[i as int]));
        i += 1;
    }
    assert(all.take(i as int) =~= all);
    r
}

/// What a module sees as `import.meta`.
#[derive(Clone, Copy, PartialEq, Eq, Structural, Debug)]
pub enum ImportMeta {
    /// Nothing: there is no context.
    Missing,
    /// An empty object.
    Empty,
    /// An empty object that the host fills in.
    FilledByHost,
    /// An object that holds the key of the module as its `url`.
    Address,
}

/// What a module sees as `import.meta`. `known` says whether the engine's record is that of a module of the
/// layer, `has_callback` whether there is an isolate with a callback to fill the object in, and `has_key`
/// whether the engine passed the key of the module.
pub fn import_meta(has_context: bool, known: bool, has_callback: bool, has_key: bool) -> (r: ImportMeta)
    ensures
        r == if !has_context {
            ImportMeta::Missing
        } else if known && has_callback {
            ImportMeta::FilledByHost
        } else if !known && has_key {
            ImportMeta::Address
        } else {
            ImportMeta::Empty
        },
{
    if !has_context {
        ImportMeta::Missing
    } else if known {
        if has_callback {
            ImportMeta::FilledByHost
        } else {
            ImportMeta::Empty
        }
    } else if has_key {
        ImportMeta::Address
    } else {
        ImportMeta::Empty
    }
}

/// Once a namespace was found for a module it is kept, and the engine's record is not asked again.
pub proof fn law_found_namespace_is_kept(g: Seq<ModuleRecord>, id: usize)
    requires
        namespace_answer(g, id) == NamespaceAnswer::AskRecord,
    ensures
        namespace_answer(
            g.update(id as int, ModuleRecord { has_namespace: true, ..g[id as int] }),
            id,
        ) == NamespaceAnswer::Kept,
{
}

/// A module that awaits makes the graph of every module that reaches it asynchronous.
pub proof fn law_async_spreads(g: Seq<ModuleRecord>, a: usize, b: usize)
    requires
        a < g.len(),
        g[a as int].dependencies@.contains(b),
        graph_async(g, b),
    ensures
        graph_async(g, a),
{
    let m = choose|m: usize| m < g.len() && g[m as int].is_async && #[trigger] reaches(g, b, m);
    let p = choose|p: Seq<usize>| #[trigger] is_path(g, p) && p[0] == b && p.last() == m;
    let q = seq![a] + p;
    assert forall|i: int| 0 <= i < q.len() - 1 implies (#[trigger] q[i]) < g.len()
        && g[q[i] as int].dependencies@.contains(q[i + 1]) by {
        if i > 0 {
            assert(p[i - 1] < g.len());
            assert(q[i] == p[i - 1] && q[i + 1] == p[i]);
        }
    }
    assert(is_path(g, q));
    assert(q.last() == m);
    assert(reaches(g, a, m));
}

/// How the engine was built.
#[derive(Clone, Copy, PartialEq, Eq, Structural, Debug)]
pub enum Build {
    /// The system's framework, whose interface knows no modules.
    System,
    /// A copy of the engine with the functions that modules need.
    Vendored,
}

/// Whether modules are the engine's own records rather than rewritten scripts.
pub fn native_modules_enabled(build: Build) -> (r: bool)
    ensures
        r == (build == Build::Vendored),
{
    build == Build::Vendored
}

/// Whether the module `specifier` can be a record of the engine's: every one can.
pub fn native_eligible(_specifier: &str) -> (r: bool)
    ensures
        r,
{
    true
}

/// The names that can be handed to the engine: those without a NUL.
pub open spec fn passable_names(names: Seq<Seq<char>>) -> Seq<Seq<char>>
    decreases names.len(),
{
    if names.len() == 0 {
        seq![]
    } else if names.last().contains('\0') {
        passable_names(names.drop_last())
    } else {
        passable_names(names.drop_last()).push(names.last())
    }
}

/// The exports of the record that the engine is asked to make for a module whose exports the embedder fills
/// in; it is not asked where it has no modules of its own or the address holds a NUL.
pub fn synthetic_record_exports(build: Build, specifier: &str, names: &[String]) -> (r: Option<
    Vec<String>,
>)
    ensures
        match r {
            Some(v) => build == Build::Vendored && !specifier@.contains('\0') && strings(v@)
                == passable_names(strings(names@)),
            None => build == Build::System || specifier@.contains('\0'),
        },
{
    if !native_modules_enabled(build) || !native_eligible(specifier) || has_nul(specifier) {
        return None;
    }
    let ghost all = strings(names@);
    let mut r: Vec<String> = Vec::new();
    let mut i: usize = 0;
    assert(strings(r@) =~= passable_names(all.take(0)));
    while i < names.len()
        invariant
            i <= names.len(),
            all == strings(names@),
            strings(r@) =~= passable_names(all.take(i as int)),
        decreases names.len() - i,
    {
        let ghost done = strings(r@);
        assert(all.take(i + 1).drop_last() =~= all.take(i as int));
        assert(all.take(i + 1).last() == names@[i as int]@);
        if !has_nul(&names[i]) {
            r.push(names[i].as_str().to_owned());
            assert(strings(r@) =~= done.push(names@[i as int]@));
        }
        i += 1;
    }
    assert(all.take(i as int) =~= all);
    Some(r)
}

/// `n` in decimal, with zeros in front up to three digits.
pub open spec fn three_digits(n: nat) -> Seq<char> {
    let d = decimal(n);
    if d.len() >= 3 {
        d
    } else {
        Seq::new((3 - d.len()) as nat, |i: int| '0') + d
    }
}

/// A text in which everything but letters and digits is an underscore.
pub open spec fn sanitized(s: Seq<char>) -> Seq<char> {
    Seq::new(
        s.len(),
        |i: int|
            if letter_or_digit(s[i]) {
                s[i]
            } else {
                '_'
            },
    )
}

/// The name of the file that the text of the module `specifier` is written to, if it is number `index`.
pub fn dump_file_name(index: u64, specifier: &str) -> (r: String)
    ensures
        r@ == three_digits(index as nat) + seq!['.'] + sanitized(specifier@) + ".js"@,
{
    let digits = decimal_of(index);
    let mut out: Vec<char> = Vec::new();
    let mut n: usize = digits.len();
    while n < 3
        invariant
            digits@.len() <= n <= 3 || n == digits@.len(),
            out@ =~= Seq::new((n - digits@.len()) as nat, |i: int| '0'),
        decreases 3 - n,
    {
        out.push('0');
        n += 1;
    }
    push_all(&mut out, &digits);
    assert(out@ =~= three_digits(index as nat));
    out.push('.');
    let c = chars_of(specifier);
    let ghost head = out@;
    let mut i: usize = 0;
    while i < c.len()
        invariant
            i <= c.len(),
            c@ == specifier@,
            out@ =~= head + sanitized(specifier@).take(i as int),
        decreases c.len() - i,
    {
        if c[i].is_alphanumeric() {
            out.push(c[i]);
        } else {
            out.push('_');
        }
        assert(sanitized(specifier@).take(i + 1) =~= sanitized(specifier@).take(i as int).push(
            sanitized(specifier@)[i as int],
        ));
        i += 1;
    }
    assert(sanitized(specifier@).take(i as int) =~= sanitized(specifier@));
    push_str(&mut out, ".js");
    assert(out@ =~= three_digits(index as nat) + seq!['.'] + sanitized(specifier@) + ".js"@);
    string_of(&out)
}

} // verus!
