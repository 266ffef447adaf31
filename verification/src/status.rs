//! The life of a module.

use vstd::prelude::*;

verus! {

/// How far a module has come.
#[derive(Clone, Copy, PartialEq, Eq, Structural, Debug)]
pub enum ModuleStatus {
    Uninstantiated,
    Instantiating,
    Instantiated,
    Evaluating,
    Evaluated,
    Errored,
}

/// The answer of an operation that an exception may cut short.
#[derive(Clone, Copy, PartialEq, Eq, Structural, Debug)]
pub enum MaybeBool {
    JustFalse,
    JustTrue,
    Nothing,
}

/// The answer that is certain.
pub open spec fn certain(b: bool) -> MaybeBool {
    if b {
        MaybeBool::JustTrue
    } else {
        MaybeBool::JustFalse
    }
}

/// The answer that is certain.
pub fn just_bool(b: bool) -> (r: MaybeBool)
    ensures
        r == certain(b),
{
    if b {
        MaybeBool::JustTrue
    } else {
        MaybeBool::JustFalse
    }
}

/// A certain answer is the answer.
pub proof fn law_certain_answers()
    ensures
        certain(true) == MaybeBool::JustTrue,
        certain(false) == MaybeBool::JustFalse,
{
}

} // verus!
