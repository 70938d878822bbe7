//! Reconstructs C/C++ source text from a captured token tree, extracts
//! embedded build directives, and plans the external compiler invocation.
use vstd::prelude::*;

pub mod handle;
pub mod plan;
pub mod command;
pub mod directives;
pub mod reconstruct;
pub mod text;
pub mod token;
pub mod toolchain;
pub mod vars;

verus! {

/// The language an embedded program is written in; it picks the source
/// file extension and the compiler's language mode.
#[derive(Clone, Copy, PartialEq, Eq, Structural)]
pub enum Language {
    C,
    Cxx,
}

/// What the external compiler printed on its error stream when it
/// rejected a program.
pub struct CompilationError {
    pub message: String,
}

impl Language {
    /// The source file extension for this language, without the dot.
    pub fn extension(&self) -> (r: String)
        ensures
            *self == Language::C ==> r@ == "c"@,
            *self == Language::Cxx ==> r@ == "cpp"@,
    {
        match self {
            Language::C => "c".to_owned(),
            Language::Cxx => "cpp".to_owned(),
        }
    }
}

impl CompilationError {
    /// The compiler diagnostic, verbatim.
    pub fn message(&self) -> (r: &String)
        ensures
            r == self.message,
    {
        &self.message
    }
}

} // verus!
