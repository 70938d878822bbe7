//! Resolution of the external compiler for a language and target.
//!
//! The compiler is found through the `cc` crate, which inspects the
//! process environment and the target triple; which compiler comes back
//! therefore depends on the machine, and nothing more is promised of it
//! than its shape: a path, its default arguments, its environment, and
//! whether its front end is clang-like.
use vstd::prelude::*;
use crate::CompilationError;
use crate::Language;

verus! {

#[verifier::external_type_specification]
#[verifier::external_body]
pub struct ExTool(cc::Tool);

/// Relies on cc::Build::try_get_compiler: picks the compiler for the
/// given language, host and target from the process environment and
/// built-in defaults. Environment-dependent, so nothing is promised of
/// the value; an error is handed back as the message text.
#[verifier::external_body]
fn get_compiler(cpp: bool, host: &str, target: &str) -> Result<cc::Tool, String> {
    let mut b = cc::Build::new();
    b.cargo_metadata(false).warnings(true).extra_warnings(true).debug(false).host(host).target(
        target,
    ).opt_level(0);
    if cpp {
        b.cpp(true);
    }
    b.try_get_compiler().map_err(|e| format!("{}", e))
}

/// Relies on cc::Tool::path: the compiler's command path.
#[verifier::external_body]
fn tool_path(t: &cc::Tool) -> String {
    t.path().to_string_lossy().into_owned()
}

/// Relies on cc::Tool::args: the compiler's default arguments.
#[verifier::external_body]
fn tool_args(t: &cc::Tool) -> Vec<String> {
    t.args().iter().map(|a| a.to_string_lossy().into_owned()).collect()
}

/// Relies on cc::Tool::env: the environment the compiler needs, used by
/// MSVC toolchains.
#[verifier::external_body]
fn tool_env(t: &cc::Tool) -> Vec<(String, String)> {
    t.env().iter().map(
        |p| (p.0.to_string_lossy().into_owned(), p.1.to_string_lossy().into_owned()),
    ).collect()
}

/// Relies on cc::Tool::is_like_clang: whether the front end is
/// clang-like, which picks the Unix output-file argument form even on
/// MSVC targets.
#[verifier::external_body]
fn tool_is_like_clang(t: &cc::Tool) -> bool {
    t.is_like_clang()
}

/// The resolved external compiler, as plain values.
pub struct ToolchainInfo {
    /// The compiler's command path.
    pub path: String,
    /// The compiler's own default arguments.
    pub args: Vec<String>,
    /// The environment pairs the compiler needs.
    pub env: Vec<(String, String)>,
    /// Whether the front end is clang-like.
    pub is_like_clang: bool,
}

/// Resolve the compiler for a language, host and target. Which compiler
/// comes back depends on the machine and its environment; the argument
/// list built from it is exact for whatever came back.
pub fn resolve_toolchain(language: Language, host: &String, target: &String) -> (r: Result<
    ToolchainInfo,
    CompilationError,
>) {
    let cpp = match language {
        Language::C => false,
        Language::Cxx => true,
    };
    match get_compiler(cpp, host.as_str(), target.as_str()) {
        Ok(tool) => Ok(
            ToolchainInfo {
                path: tool_path(&tool),
                args: tool_args(&tool),
                env: tool_env(&tool),
                is_like_clang: tool_is_like_clang(&tool),
            },
        ),
        Err(message) => Err(CompilationError { message }),
    }
}

} // verus!
