//! What can be wrong with a program that parsed.

use vstd::prelude::*;

verus! {

/// A semantic error. The first one met ends the compilation.
#[derive(Debug, PartialEq, Eq)]
pub enum CompileError {
    /// The identifier is already declared in the innermost scope.
    DuplicateDeclaration(String),
    /// No open scope declares the identifier.
    UndeclaredVariable(String),
    /// The identifier's value is used before it has received one.
    UninitializedVariable(String),
    /// A `break` with no loop around it.
    BreakOutsideLoop,
}

/// A [`CompileError`] with its identifier as a sequence of characters.
pub enum Failure {
    DuplicateDeclaration(Seq<char>),
    UndeclaredVariable(Seq<char>),
    UninitializedVariable(Seq<char>),
    BreakOutsideLoop,
}

impl View for CompileError {
    type V = Failure;

    open spec fn view(&self) -> Failure {
        match self {
            CompileError::DuplicateDeclaration(id) => Failure::DuplicateDeclaration(id@),
            CompileError::UndeclaredVariable(id) => Failure::UndeclaredVariable(id@),
            CompileError::UninitializedVariable(id) => Failure::UninitializedVariable(id@),
            CompileError::BreakOutsideLoop => Failure::BreakOutsideLoop,
        }
    }
}

/// The text of an error, for people.
pub open spec fn failure_message(f: Failure) -> Seq<char> {
    match f {
        Failure::DuplicateDeclaration(id) => "variable already declared: "@ + id + "."@,
        Failure::UndeclaredVariable(id) => "undeclared variable: "@ + id + "."@,
        Failure::UninitializedVariable(id) => "unitialized variable: "@ + id + "."@,
        Failure::BreakOutsideLoop => "break not inside a loop."@,
    }
}

/// The view of what a compiling function returns: the emitted text, or the
/// failure.
pub open spec fn result_view(r: Result<String, CompileError>) -> Result<Seq<char>, Failure> {
    match r {
        Ok(text) => Ok(text@),
        Err(e) => Err(e@),
    }
}

impl CompileError {
    /// The text of the error, for people.
    pub fn message(&self) -> (r: String)
        ensures
            r@ == failure_message(self@),
    {
        let mut out: String = String::new();
        match self {
            CompileError::DuplicateDeclaration(id) => {
                out.append("variable already declared: ");
                out.append(id.as_str());
                out.append(".");
            },
            CompileError::UndeclaredVariable(id) => {
                out.append("undeclared variable: ");
                out.append(id.as_str());
                out.append(".");
            },
            CompileError::UninitializedVariable(id) => {
                out.append("unitialized variable: ");
                out.append(id.as_str());
                out.append(".");
            },
            CompileError::BreakOutsideLoop => {
                out.append("break not inside a loop.");
            },
        }
        out
    }
}

} // verus!
