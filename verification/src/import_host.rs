//! Dynamic imports: the embedder loads the module and answers with a promise.

use vstd::prelude::*;

verus! {

/// What is known of the embedder's side of dynamic imports.
pub struct ImportHost {
    /// The embedder's function.
    pub callback: Option<usize>,
    /// The engine has been told whom to ask.
    pub hooked: bool,
    /// The helper script that settles the engine's promise along with the embedder's.
    pub chain: Option<usize>,
}

/// What is to be done next.
pub enum Step {
    /// Ask the embedder.
    Call(usize),
    /// Reject the import with an error of this message.
    Reject(String),
    /// Reject the import with this exception.
    RejectWith(usize),
    /// Compile the helper script and report it.
    CompileChain,
    /// Call this helper script with the embedder's promise.
    Chain(usize),
}

/// A step as plain values.
pub enum StepView {
    Call(usize),
    Reject(Seq<char>),
    RejectWith(usize),
    CompileChain,
    Chain(usize),
}

impl View for Step {
    type V = StepView;

    open spec fn view(&self) -> StepView {
        match self {
            Step::Call(cb) => StepView::Call(*cb),
            Step::Reject(m) => StepView::Reject(m@),
            Step::RejectWith(e) => StepView::RejectWith(*e),
            Step::CompileChain => StepView::CompileChain,
            Step::Chain(f) => StepView::Chain(*f),
        }
    }
}

impl ImportHost {
    /// No embedder has spoken up.
    pub fn new() -> (r: ImportHost)
        ensures
            r == (ImportHost { callback: None, hooked: false, chain: None }),
    {
        ImportHost { callback: None, hooked: false, chain: None }
    }

    /// From here on `cb` loads modules, in place of an earlier one.
    pub fn set_dynamic_import_callback(&mut self, cb: usize)
        ensures
            *final(self) == (ImportHost { callback: Some(cb), hooked: true, ..*old(self) }),
    {
        self.callback = Some(cb);
        self.hooked = true;
    }

    /// Begins an import: without an embedder it is rejected.
    pub fn begin(&self) -> (r: Step)
        ensures
            r@ == match self.callback {
                Some(cb) => StepView::Call(cb),
                None => StepView::Reject("dynamic import: no host callback"@),
            },
    {
        match self.callback {
            Some(cb) => Step::Call(cb),
            None => Step::Reject("dynamic import: no host callback".to_owned()),
        }
    }

    /// Goes on once the embedder has answered, with a promise or without; in the second case an exception
    /// may be pending.
    pub fn answered(&self, promise: bool, exception: Option<usize>) -> (r: Step)
        ensures
            r@ == if promise {
                match self.chain {
                    Some(f) => StepView::Chain(f),
                    None => StepView::CompileChain,
                }
            } else {
                match exception {
                    Some(e) => StepView::RejectWith(e),
                    None => StepView::Reject("dynamic import: host callback returned null"@),
                }
            },
    {
        if promise {
            return match self.chain {
                Some(f) => Step::Chain(f),
                None => Step::CompileChain,
            };
        }
        match exception {
            Some(e) => Step::RejectWith(e),
            None => Step::Reject("dynamic import: host callback returned null".to_owned()),
        }
    }

    /// Goes on once the helper script has been compiled. It is kept for later imports.
    pub fn chain_compiled(&mut self, chain: Option<usize>) -> (r: Step)
        ensures
            *final(self) == match chain {
                Some(f) => ImportHost { chain: Some(f), ..*old(self) },
                None => *old(self),
            },
            r@ == match chain {
                Some(f) => StepView::Chain(f),
                None => StepView::Reject("dynamic import: chain helper failed"@),
            },
    {
        match chain {
            Some(f) => {
                self.chain = Some(f);
                Step::Chain(f)
            },
            None => Step::Reject("dynamic import: chain helper failed".to_owned()),
        }
    }

    /// The embedder's function that an import goes to, where all that it needs is there.
    pub fn import_target(&self, has_context: bool, has_specifier: bool) -> (r: Option<usize>)
        ensures
            r == if has_context && has_specifier {
                self.callback
            } else {
                None
            },
    {
        if has_context && has_specifier {
            self.callback
        } else {
            None
        }
    }
}

/// The attribute type that a request's attribute code stands for.
pub open spec fn attribute_name(code: i32) -> Option<Seq<char>> {
    if code == 3 {
        Some("json"@)
    } else if code == 2 {
        Some("webassembly"@)
    } else {
        None
    }
}

/// The attribute type that a request's attribute code stands for: 3 for JSON, 2 for WebAssembly.
pub fn attribute_of(code: i32) -> (r: Option<&'static str>)
    ensures
        match r {
            Some(t) => attribute_name(code) == Some(t@),
            None => attribute_name(code) is None,
        },
{
    if code == 3 {
        Some("json")
    } else if code == 2 {
        Some("webassembly")
    } else {
        None
    }
}

/// The attributes of an import, each as its key and its value.
pub fn import_attributes(attr_type: i32) -> (r: Vec<(String, String)>)
    ensures
        match attribute_name(attr_type) {
            Some(t) => r@.len() == 1 && r@[0].0@ == "type"@ && r@[0].1@ == t,
            None => r@.len() == 0,
        },
{
    let mut r: Vec<(String, String)> = Vec::new();
    if let Some(t) = attribute_of(attr_type) {
        r.push(("type".to_owned(), t.to_owned()));
    }
    r
}

/// Which arguments of a script's call of the import function are used: none, the specifier alone, or the
/// specifier and the address of the importing script.
#[derive(Clone, Copy, PartialEq, Eq, Structural, Debug)]
pub enum ImportArguments {
    Nothing,
    Specifier,
    SpecifierAndReferrer,
}

/// Which arguments are used: the second one only where it is a string.
pub fn import_arguments(argc: usize, second_is_string: bool) -> (r: ImportArguments)
    ensures
        r == if argc == 0 {
            ImportArguments::Nothing
        } else if argc >= 2 && second_is_string {
            ImportArguments::SpecifierAndReferrer
        } else {
            ImportArguments::Specifier
        },
{
    if argc < 1 {
        ImportArguments::Nothing
    } else if argc >= 2 && second_is_string {
        ImportArguments::SpecifierAndReferrer
    } else {
        ImportArguments::Specifier
    }
}

/// The codes of attribute types.
pub proof fn law_attribute_codes(code: i32)
    ensures
        attribute_name(3) == Some("json"@),
        attribute_name(2) == Some("webassembly"@),
        code != 2 && code != 3 ==> attribute_name(code) is None,
{
}

/// A script may call the import function without arguments; the address of the importing script counts only
/// as a string.
pub proof fn law_import_arguments(argc: usize, text: bool, r: ImportArguments)
    requires
        call_ensures(import_arguments, (argc, text), r),
    ensures
        r == ImportArguments::Nothing <==> argc == 0,
        r == ImportArguments::SpecifierAndReferrer <==> argc >= 2 && text,
{
}

/// An embedder's answer settles the import: its promise is chained, and without one the import is rejected
/// with the pending exception, or with a message.
pub proof fn law_answers(host: ImportHost, e: usize, kept: Step, pending: Step, silent: Step)
    requires
        call_ensures(ImportHost::answered, (&host, true, None), kept),
        call_ensures(ImportHost::answered, (&host, false, Some(e)), pending),
        call_ensures(ImportHost::answered, (&host, false, None), silent),
    ensures
        host.chain matches Some(f) ==> kept@ == StepView::Chain(f),
        host.chain is None ==> kept@ == StepView::CompileChain,
        pending@ == StepView::RejectWith(e),
        silent@ == StepView::Reject("dynamic import: host callback returned null"@),
{
}

/// An import goes to the embedder's function, and without one it is rejected.
pub proof fn law_imports_go_to_the_embedder(
    host: ImportHost,
    step: Step,
    target: Option<usize>,
    no_context: Option<usize>,
    no_specifier: Option<usize>,
)
    requires
        call_ensures(ImportHost::begin, (&host,), step),
        call_ensures(ImportHost::import_target, (&host, true, true), target),
        call_ensures(ImportHost::import_target, (&host, false, true), no_context),
        call_ensures(ImportHost::import_target, (&host, true, false), no_specifier),
    ensures
        host.callback matches Some(cb) ==> step@ == StepView::Call(cb) && target == Some(cb),
        host.callback is None ==> step@ == StepView::Reject("dynamic import: no host callback"@)
            && target is None,
        no_context is None && no_specifier is None,
{
}

/// The embedder's function that was set last is asked.
pub proof fn law_latest_callback_is_asked(a: ImportHost, b: ImportHost, cb: usize, step: Step)
    requires
        exists|m: &mut ImportHost|
            *m == a && *final(m) == b && #[trigger] call_ensures(
                ImportHost::set_dynamic_import_callback,
                (m, cb),
                (),
            ),
        call_ensures(ImportHost::begin, (&b,), step),
    ensures
        step@ == StepView::Call(cb),
        b.hooked,
        b.chain == a.chain,
{
}

/// A helper script is compiled once: later promises are chained with it. Where it cannot be compiled, the
/// import is rejected and nothing is kept.
pub proof fn law_helper_is_kept(a: ImportHost, b: ImportHost, c: ImportHost, f: usize, first: Step, later: Step, failed: Step)
    requires
        exists|m: &mut ImportHost|
            *m == a && *final(m) == b && #[trigger] call_ensures(ImportHost::chain_compiled, (m, Some(f)), first),
        call_ensures(ImportHost::answered, (&b, true, None), later),
        exists|m: &mut ImportHost|
            *m == a && *final(m) == c && #[trigger] call_ensures(ImportHost::chain_compiled, (m, None), failed),
    ensures
        first@ == StepView::Chain(f),
        later@ == StepView::Chain(f),
        failed@ == StepView::Reject("dynamic import: chain helper failed"@),
        c == a,
{
}

} // verus!
