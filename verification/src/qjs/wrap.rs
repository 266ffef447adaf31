//! The script that makes a function of its body and its parameters.

use crate::text::{
    all_chars, begins, chars_of, contains_char, has_nul, join, joined, push_all, push_str,
    starts_with, string_of, strings, tail,
};
use vstd::prelude::*;

verus! {

/// `body` with `//` in place of `#!` at its beginning: inside a function a line that `#!` begins is an
/// error. The line stays, so that the lines keep their numbers.
pub open spec fn without_shebang(body: Seq<char>) -> Seq<char> {
    if begins(body, "#!"@) {
        "//"@ + body.skip(2)
    } else {
        body
    }
}

/// The function expression with these parameters and this body.
pub open spec fn function_text(args: Seq<Seq<char>>, body: Seq<char>) -> Seq<char> {
    "(function("@ + joined(args, ","@) + ") {\n"@ + without_shebang(body) + "\n})"@
}

/// Why no function can be made.
#[derive(Clone, Copy, PartialEq, Eq, Structural, Debug)]
pub enum CompileFunctionError {
    /// There is no body.
    InvalidSource,
    /// The script would hold a NUL, at which the engine would stop to read.
    NulInSource,
}

/// The message of the type error that is raised.
pub fn error_message(e: CompileFunctionError) -> (r: &'static str)
    ensures
        r@ == match e {
            CompileFunctionError::InvalidSource => "compile_function: invalid source"@,
            CompileFunctionError::NulInSource => "compile_function: NUL in source"@,
        },
{
    match e {
        CompileFunctionError::InvalidSource => "compile_function: invalid source",
        CompileFunctionError::NulInSource => "compile_function: NUL in source",
    }
}

/// The script that makes a function of `body` and the parameters `args`.
pub fn compile_function_source(args: &[String], body: Option<&str>) -> (r: Result<
    String,
    CompileFunctionError,
>)
    ensures
        match r {
            Ok(t) => body is Some && t@ == function_text(strings(args@), body->0@) && !t@.contains(
                '\0',
            ),
            Err(CompileFunctionError::InvalidSource) => body is None,
            Err(CompileFunctionError::NulInSource) => body is Some && function_text(
                strings(args@),
                body->0@,
            ).contains('\0'),
        },
{
    let body = match body {
        Some(b) => b,
        None => {
            return Err(CompileFunctionError::InvalidSource);
        },
    };
    let b = chars_of(body);
    let mut out = chars_of("(function(");
    push_all(&mut out, &join(&all_chars(args), ","));
    push_str(&mut out, ") {\n");
    proof {
        reveal_strlit("#!");
    }
    if starts_with(&b, "#!") {
        push_str(&mut out, "//");
        push_all(&mut out, tail(&b, 2));
    } else {
        push_all(&mut out, &b);
    }
    push_str(&mut out, "\n})");
    assert(out@ =~= function_text(strings(args@), body@));
    if contains_char(&out, '\0') {
        Err(CompileFunctionError::NulInSource)
    } else {
        Ok(string_of(&out))
    }
}

/// The name under which a function is compiled. Its dynamic imports are resolved against it.
pub open spec fn function_name(resource_name: Seq<char>) -> Seq<char> {
    if resource_name.len() == 0 || resource_name.contains('\0') {
        "<function>"@
    } else {
        resource_name
    }
}

/// The name under which a function is compiled.
pub fn compile_function_name(resource_name: &str) -> (r: String)
    ensures
        r@ == function_name(resource_name@),
{
    if resource_name.is_empty() || has_nul(resource_name) {
        "<function>".to_owned()
    } else {
        resource_name.to_owned()
    }
}

/// The parameters stand between commas and the body on lines of its own; a line that `#!` begins becomes a
/// comment.
pub proof fn law_function_script(args: Seq<Seq<char>>, body: Seq<char>, rest: Seq<char>)
    ensures
        function_text(args, "#!"@ + rest) == "(function("@ + joined(args, ","@) + ") {\n//"@ + rest
            + "\n})"@,
        !begins(body, "#!"@) ==> function_text(args, body) == "(function("@ + joined(args, ","@)
            + ") {\n"@ + body + "\n})"@,
{
    let s = "#!"@ + rest;
    reveal_strlit("#!");
    reveal_strlit("//");
    reveal_strlit(") {\n");
    reveal_strlit(") {\n//");
    assert(s.subrange(0, 2) =~= "#!"@);
    assert(s.skip(2) =~= rest);
    assert(function_text(args, s) =~= "(function("@ + joined(args, ","@) + ") {\n//"@ + rest
        + "\n})"@);
}

/// A function is compiled under its resource name; one without a usable name goes by a name of its own.
pub proof fn law_function_name(name: Seq<char>)
    ensures
        name.len() > 0 && !name.contains('\0') ==> function_name(name) == name,
        name.contains('\0') ==> function_name(name) == "<function>"@,
        function_name(seq![]) == "<function>"@,
{
}

/// The messages of the errors.
pub proof fn law_messages(body: &'static str, nul: &'static str)
    requires
        call_ensures(error_message, (CompileFunctionError::InvalidSource,), body),
        call_ensures(error_message, (CompileFunctionError::NulInSource,), nul),
    ensures
        body@ == "compile_function: invalid source"@,
        nul@ == "compile_function: NUL in source"@,
{
}

} // verus!
