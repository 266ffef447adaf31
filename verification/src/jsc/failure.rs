//! What is raised where the engine gives no exception of its own.

use vstd::prelude::*;

verus! {

/// What failed.
#[derive(Clone, Copy, PartialEq, Eq, Structural, Debug)]
pub enum Failure {
    /// The parsing of a module.
    Parse,
    /// The evaluation of a module.
    Evaluation,
    /// The compilation of a function.
    CompileFunction,
    /// The linking of a graph that holds a module without a record of the engine's own.
    MixedGraph,
    /// The linking of any other graph.
    Link,
}

/// The message of the error that is raised.
pub open spec fn message_text(f: Failure) -> Seq<char> {
    match f {
        Failure::Parse => "module parse failed"@,
        Failure::Evaluation => "module evaluation failed"@,
        Failure::CompileFunction => "CompileFunction failed"@,
        Failure::MixedGraph => "v82jsc: native module graph has a non-ESM (synthetic) dependency"@,
        Failure::Link => "v82jsc: native module link failed"@,
    }
}

/// The message of the error that is raised.
pub fn message(f: Failure) -> (r: &'static str)
    ensures
        r@ == message_text(f),
{
    match f {
        Failure::Parse => "module parse failed",
        Failure::Evaluation => "module evaluation failed",
        Failure::CompileFunction => "CompileFunction failed",
        Failure::MixedGraph => "v82jsc: native module graph has a non-ESM (synthetic) dependency",
        Failure::Link => "v82jsc: native module link failed",
    }
}

/// What is raised.
#[derive(Clone, Copy, PartialEq, Eq, Structural, Debug)]
pub enum Raised {
    /// The engine's exception.
    Exception(usize),
    /// An error with the message of this failure.
    Error(Failure),
}

/// What is raised for a failure: the engine's exception, where there is one. Linking has none.
pub fn raised(f: Failure, exception: Option<usize>) -> (r: Raised)
    ensures
        r == match exception {
            Some(e) => if f == Failure::MixedGraph || f == Failure::Link {
                Raised::Error(f)
            } else {
                Raised::Exception(e)
            },
            None => Raised::Error(f),
        },
{
    match (f, exception) {
        (Failure::MixedGraph, _) | (Failure::Link, _) | (_, None) => Raised::Error(f),
        (_, Some(e)) => Raised::Exception(e),
    }
}

/// Why a graph could not be linked; nothing where it was.
pub fn link_failure(linkable: bool, linked: bool) -> (r: Option<Failure>)
    ensures
        r == if !linkable {
            Some(Failure::MixedGraph)
        } else if !linked {
            Some(Failure::Link)
        } else {
            None
        },
{
    if !linkable {
        Some(Failure::MixedGraph)
    } else if !linked {
        Some(Failure::Link)
    } else {
        None
    }
}

/// The messages of the errors.
pub proof fn law_messages()
    ensures
        message_text(Failure::Parse) == "module parse failed"@,
        message_text(Failure::Evaluation) == "module evaluation failed"@,
        message_text(Failure::CompileFunction) == "CompileFunction failed"@,
        message_text(Failure::MixedGraph)
            == "v82jsc: native module graph has a non-ESM (synthetic) dependency"@,
        message_text(Failure::Link) == "v82jsc: native module link failed"@,
{
}

/// An exception of the engine's is raised as it is where running or compiling failed; a failure to link is
/// told by its own message, and so is any failure without an exception.
pub proof fn law_engine_exceptions_go_first(f: Failure, e: usize, with: Raised, without: Raised)
    requires
        call_ensures(raised, (f, Some(e)), with),
        call_ensures(raised, (f, None), without),
    ensures
        without == Raised::Error(f),
        f == Failure::Parse || f == Failure::Evaluation || f == Failure::CompileFunction ==> with
            == Raised::Exception(e),
        f == Failure::MixedGraph || f == Failure::Link ==> with == without,
{
}

/// A graph that was linked has not failed; one that cannot be linked fails for that reason.
pub proof fn law_link_failures(linkable: bool, linked: bool, r: Option<Failure>)
    requires
        call_ensures(link_failure, (linkable, linked), r),
    ensures
        r is None <==> linkable && linked,
        !linkable ==> r == Some(Failure::MixedGraph),
        linkable && !linked ==> r == Some(Failure::Link),
{
}

} // verus!
