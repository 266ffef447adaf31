//! Scripts: what is kept of a compiled one, and how it is run.

use crate::code_cache::{cached_data_from_bytes, make_placeholder_code_cache, CachedData};
use crate::handle_map::HandleMap;
use crate::text::{copy_without_nul, has_nul, optional, without_nul};
use vstd::prelude::*;

verus! {

/// The name that a script goes by in a cached program if it was compiled without one.
pub const DEFAULT_NAME: &'static str = "script";

/// What the engine's value for the name of a script is.
#[derive(Clone, Copy, PartialEq, Eq, Structural, Debug)]
pub enum NameValue {
    Missing,
    Undefined,
    Null,
    Other,
}

/// The name of a script's origin: the text of the value, unless the value stands for no name or the text
/// is empty.
pub fn origin_resource_name(value: NameValue, text: &str) -> (r: Option<String>)
    ensures
        optional(r) == if value == NameValue::Other && text@.len() > 0 {
            Some(text@)
        } else {
            None
        },
{
    match value {
        NameValue::Other => if text.is_empty() {
            None
        } else {
            Some(text.to_owned())
        },
        _ => None,
    }
}

/// How a script is run.
pub enum Run {
    /// It is not: its text cannot be handed to the engine.
    Refused,
    /// From the bytes that an earlier compilation left, under the name `url`.
    Cached { url: String, bytes: Vec<u8> },
    /// From its text, under `name` if there is one.
    Text { name: Option<String> },
}

/// How a script is run, as plain values.
pub enum RunView {
    Refused,
    Cached { url: Seq<char>, bytes: Seq<u8> },
    Text { name: Option<Seq<char>> },
}

impl View for Run {
    type V = RunView;

    open spec fn view(&self) -> RunView {
        match *self {
            Run::Refused => RunView::Refused,
            Run::Cached { url, bytes } => RunView::Cached { url: url@, bytes: bytes@ },
            Run::Text { name } => RunView::Text { name: optional(name) },
        }
    }
}

/// How a script with the text `text` is run.
pub open spec fn run_of(name: Option<Seq<char>>, bytes: Option<Seq<u8>>, text: Seq<char>) -> RunView {
    match bytes {
        Some(b) => {
            let url = match name {
                Some(n) => n,
                None => DEFAULT_NAME@,
            };
            if text.contains('\0') || url.contains('\0') {
                RunView::Refused
            } else {
                RunView::Cached { url, bytes: b }
            }
        },
        None => RunView::Text {
            name: match name {
                Some(n) => without_nul(n),
                None => None,
            },
        },
    }
}

/// What is kept of the scripts that were compiled, by handle.
pub struct Scripts {
    /// The names that they were compiled under.
    pub names: HandleMap<String>,
    /// The bytes that they were compiled with.
    pub bytecode: HandleMap<Vec<u8>>,
}

impl Scripts {
    /// No script.
    pub fn new() -> (r: Scripts)
        ensures
            r.names@ == Map::<usize, String>::empty(),
            r.bytecode@ == Map::<usize, Vec<u8>>::empty(),
    {
        Scripts { names: HandleMap::new(), bytecode: HandleMap::new() }
    }

    /// The name that the script `script` was compiled under.
    pub open spec fn name_of(&self, script: usize) -> Option<Seq<char>> {
        if self.names@.dom().contains(script) {
            Some(self.names@[script]@)
        } else {
            None
        }
    }

    /// The bytes that the script `script` was compiled with.
    pub open spec fn bytes_of(&self, script: usize) -> Option<Seq<u8>> {
        if self.bytecode@.dom().contains(script) {
            Some(self.bytecode@[script]@)
        } else {
            None
        }
    }

    /// Notes that `script`, whose text the engine accepted, was compiled under `name`, with `cached`
    /// where the embedder passed a cache. An empty name or cache changes nothing.
    pub fn compiled(&mut self, script: usize, name: String, cached: Option<Vec<u8>>)
        ensures
            final(self).names@ == if name@.len() > 0 {
                old(self).names@.insert(script, name)
            } else {
                old(self).names@
            },
            final(self).bytecode@ == if cached is Some && cached->0@.len() > 0 {
                old(self).bytecode@.insert(script, cached->0)
            } else {
                old(self).bytecode@
            },
    {
        if !name.as_str().is_empty() {
            self.names.insert(script, name);
        }
        if let Some(bytes) = cached {
            if bytes.len() > 0 {
                self.bytecode.insert(script, bytes);
            }
        }
    }

    /// How to run `script`, whose text is `text`.
    pub fn run(&self, script: usize, text: &str) -> (r: Run)
        ensures
            r@ == run_of(self.name_of(script), self.bytes_of(script), text@),
    {
        let name = self.names.get(script);
        match self.bytecode.get(script) {
            Some(bytes) => {
                let url: String = match name {
                    Some(n) => n.as_str().to_owned(),
                    None => DEFAULT_NAME.to_owned(),
                };
                if has_nul(text) || has_nul(&url) {
                    Run::Refused
                } else {
                    Run::Cached { url, bytes: bytes.clone() }
                }
            },
            None => Run::Text {
                name: match name {
                    Some(n) => copy_without_nul(n),
                    None => None,
                },
            },
        }
    }
}

/// The code cache of a script: the bytes that the engine encoded it to, or a placeholder where there are
/// none.
pub fn create_code_cache(encoded: Option<Vec<u8>>) -> (r: CachedData)
    ensures
        r.data matches Some(bytes) && bytes@ == if encoded is Some && encoded->0@.len() > 0 {
            encoded->0@
        } else {
            seq![0u8]
        },
        r.length == (r.data->0)@.len() as i32,
        !r.rejected,
        r.owns_bytes() == (r.length > 0),
{
    match encoded {
        Some(bytes) if bytes.len() > 0 => cached_data_from_bytes(bytes),
        _ => make_placeholder_code_cache(),
    }
}

/// A script is run under the name that it was compiled under last, from the bytes of its last cache.
pub proof fn law_script_runs_as_compiled(
    before: Scripts,
    after: Scripts,
    script: usize,
    name: String,
    bytes: Vec<u8>,
    text: Seq<char>,
)
    requires
        after.names@ == before.names@.insert(script, name),
        after.bytecode@ == before.bytecode@.insert(script, bytes),
        !name@.contains('\0'),
        !text.contains('\0'),
    ensures
        run_of(after.name_of(script), after.bytes_of(script), text) == (RunView::Cached {
            url: name@,
            bytes: bytes@,
        }),
        forall|other: usize|
            other != script ==> #[trigger] after.name_of(other) == before.name_of(other)
                && after.bytes_of(other) == before.bytes_of(other),
{
}

/// A script with a cache runs from it, under its name or under `script`; a text or name that holds a NUL
/// cannot be handed on.
pub proof fn law_cached_scripts(name: Seq<char>, bytes: Seq<u8>, text: Seq<char>)
    ensures
        !text.contains('\0') && !name.contains('\0') ==> run_of(Some(name), Some(bytes), text) == (
        RunView::Cached { url: name, bytes }),
        !text.contains('\0') ==> run_of(None, Some(bytes), text) == (RunView::Cached {
            url: "script"@,
            bytes,
        }),
        text.contains('\0') || name.contains('\0') ==> run_of(Some(name), Some(bytes), text)
            == RunView::Refused,
{
    reveal_strlit("script");
}

/// A script without a cache runs from its text, under its name where the name can be handed on.
pub proof fn law_scripts_without_cache(name: Seq<char>, text: Seq<char>)
    ensures
        !name.contains('\0') ==> run_of(Some(name), None, text) == (RunView::Text {
            name: Some(name),
        }),
        name.contains('\0') ==> run_of(Some(name), None, text) == (RunView::Text { name: None }),
        run_of(None, None, text) == (RunView::Text { name: None }),
{
}

/// A value that stands for no name, and an empty text, give none.
pub proof fn law_origin_names(value: NameValue, text: &str, r: Option<String>)
    requires
        call_ensures(origin_resource_name, (value, text), r),
    ensures
        value != NameValue::Other || text@.len() == 0 ==> r is None,
        value == NameValue::Other && text@.len() > 0 ==> r is Some && r->0@ == text@,
{
}

/// A script runs from the cache and under the name that it was compiled with.
pub proof fn law_compiled_script_runs(
    a: Scripts,
    b: Scripts,
    script: usize,
    name: String,
    cached: Vec<u8>,
    text: &str,
    run: Run,
)
    requires
        name@.len() > 0 && !name@.contains('\0'),
        cached@.len() > 0,
        !text@.contains('\0'),
        exists|m: &mut Scripts|
            *m == a && *final(m) == b && #[trigger] call_ensures(
                Scripts::compiled,
                (m, script, name, Some(cached)),
                (),
            ),
        call_ensures(Scripts::run, (&b, script, text), run),
    ensures
        run@ == (RunView::Cached { url: name@, bytes: cached@ }),
{
}

/// Compiling without a name and without a cache leaves what is kept as it is.
pub proof fn law_nothing_to_keep(a: Scripts, b: Scripts, script: usize, name: String, empty: Vec<u8>)
    requires
        name@.len() == 0,
        empty@.len() == 0,
        exists|m: &mut Scripts|
            *m == a && *final(m) == b && #[trigger] call_ensures(
                Scripts::compiled,
                (m, script, name, Some(empty)),
                (),
            ),
    ensures
        b.names@ == a.names@ && b.bytecode@ == a.bytecode@,
{
}

} // verus!
