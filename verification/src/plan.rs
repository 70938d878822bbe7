//! The build plan: what one compiler invocation will do, computed from
//! the program text, the environment snapshot, and the host triple.
use vstd::prelude::*;
use crate::Language;
use crate::text::{has_substring, str_contains, clone_string};
use crate::vars::{VarSet, assoc_map, pairs_view};
use crate::directives::{
    collect_environment_variables, collect_options, strip_vars_from, strip_words_from,
    var_directives_from, word_directives_from, env_pairs,
};
use crate::command::{
    compiler_flags, output_args, obj_path, command_add_compiler_flags, command_add_output_file,
};

verus! {

/// Whether `w` stands among `words`.
pub open spec fn has_word(words: Seq<Seq<char>>, w: Seq<char>) -> bool {
    exists|l: int| 0 <= l < words.len() && words[l] == w
}

/// Everything one build of a program has decided before the compiler
/// runs: the cleaned program text, the resolved variables and options,
/// the target triple, and the file extensions the artifacts carry.
pub struct BuildPlan {
    /// The program text with every directive removed.
    pub program: String,
    /// Environment-derived pairs, then in-source directives.
    pub vars: VarSet,
    /// The bare option words, in match order.
    pub options: Vec<String>,
    /// Whether a shared artifact was asked for.
    pub is_shared: bool,
    /// The resolved target triple.
    pub target: String,
    /// Whether the target names an MSVC toolchain.
    pub msvc: bool,
    /// Whether the target names Windows.
    pub windows: bool,
    /// The source file extension, without the dot.
    pub source_ext: String,
    /// The extension forced onto the output artifact, if any.
    pub output_ext: Option<String>,
}

/// Decide a build from the program text, an environment snapshot, and
/// the host triple.
///
/// Value-form directives are extracted first, then option-form
/// directives from the already-cleaned text; the target is the `TARGET`
/// variable when set, else the host; the output extension is forced
/// only on Windows targets: the shared-library suffix for a shared
/// artifact, the executable suffix otherwise.
pub fn prepare_build(language: Language, program_text: &str, env: &Vec<(String, String)>, host: &String) -> (r:
    BuildPlan)
    ensures
        pairs_view(r.vars.items@) == env_pairs(pairs_view(env@)) + var_directives_from(
            program_text@,
            0,
        ),
        r.program@ == strip_words_from(strip_vars_from(program_text@, 0), 0),
        r.options@.map_values(|w: String| w@) == word_directives_from(
            strip_vars_from(program_text@, 0),
            0,
        ),
        r.is_shared == has_word(
            word_directives_from(strip_vars_from(program_text@, 0), 0),
            "SHARED"@,
        ),
        r.vars@.contains_key("TARGET"@) ==> r.target@ == r.vars@["TARGET"@],
        !r.vars@.contains_key("TARGET"@) ==> r.target@ == host@,
        r.msvc == has_substring(r.target@, "msvc"@),
        r.windows == has_substring(r.target@, "windows"@),
        language == Language::C ==> r.source_ext@ == "c"@,
        language == Language::Cxx ==> r.source_ext@ == "cpp"@,
        r.windows && r.is_shared ==> (r.output_ext matches Some(e) && e@ == ".dll"@),
        r.windows && !r.is_shared ==> (r.output_ext matches Some(e) && e@ == ".exe"@),
        !r.windows ==> r.output_ext is None,
{
    let (clean1, vars) = collect_environment_variables(program_text, env);
    let (clean2, options) = collect_options(clean1.as_str());
    let is_shared = word_list_has(&options, "SHARED");
    let target = match vars.get("TARGET") {
        Some(v) => clone_string(v),
        None => clone_string(host),
    };
    let msvc = str_contains(&target, "msvc");
    let windows = str_contains(&target, "windows");
    let output_ext = if windows && is_shared {
        Some(".dll".to_owned())
    } else if windows {
        Some(".exe".to_owned())
    } else {
        None
    };
    BuildPlan {
        program: clean2,
        vars,
        options,
        is_shared,
        target,
        msvc,
        windows,
        source_ext: language.extension(),
        output_ext,
    }
}

/// The whole compiler argument list, after the compiler path itself: an
/// MSVC toolchain takes its own arguments, the flags, the output-file
/// arguments, and the input last; every other toolchain takes the input
/// first, then its own arguments, the flags, and the output-file
/// arguments.
pub open spec fn full_argv(
    tool_args: Seq<Seq<char>>,
    vars: Map<Seq<char>, Seq<char>>,
    env: Map<Seq<char>, Seq<char>>,
    is_shared: bool,
    target: Seq<char>,
    msvc: bool,
    clang: bool,
    input: Seq<char>,
    output: Seq<char>,
) -> Seq<Seq<char>> {
    if msvc {
        tool_args + compiler_flags(vars, env, is_shared, target) + output_args(
            output,
            msvc,
            clang,
        ) + seq![input]
    } else {
        seq![input] + tool_args + compiler_flags(vars, env, is_shared, target) + output_args(
            output,
            msvc,
            clang,
        )
    }
}

/// Assemble the compiler argument list for a planned build.
pub fn build_compile_args(
    tool_args: &Vec<String>,
    plan: &BuildPlan,
    env: &Vec<(String, String)>,
    clang: bool,
    input_path: &String,
    output_path: &String,
) -> (r: Vec<String>)
    ensures
        r@.map_values(|w: String| w@) == full_argv(
            tool_args@.map_values(|w: String| w@),
            plan.vars@,
            assoc_map(pairs_view(env@)),
            plan.is_shared,
            plan.target@,
            plan.msvc,
            clang,
            input_path@,
            output_path@,
        ),
{
    let mut args: Vec<String> = Vec::new();
    if plan.msvc {
        append_strings(&mut args, tool_args);
        command_add_compiler_flags(&mut args, &plan.vars, env, plan.is_shared, &plan.target);
        command_add_output_file(&mut args, output_path, plan.msvc, clang);
        let ghost before = args@.map_values(|w: String| w@);
        args.push(clone_string(input_path));
        proof {
            assert(args@.map_values(|w: String| w@) =~= before + seq![input_path@]);
            assert(args@.map_values(|w: String| w@) =~= full_argv(
                tool_args@.map_values(|w: String| w@),
                plan.vars@,
                assoc_map(pairs_view(env@)),
                plan.is_shared,
                plan.target@,
                plan.msvc,
                clang,
                input_path@,
                output_path@,
            ));
        }
    } else {
        args.push(clone_string(input_path));
        proof {
            assert(args@.map_values(|w: String| w@) =~= seq![input_path@]);
        }
        append_strings(&mut args, tool_args);
        command_add_compiler_flags(&mut args, &plan.vars, env, plan.is_shared, &plan.target);
        command_add_output_file(&mut args, output_path, plan.msvc, clang);
        proof {
            assert(args@.map_values(|w: String| w@) =~= full_argv(
                tool_args@.map_values(|w: String| w@),
                plan.vars@,
                assoc_map(pairs_view(env@)),
                plan.is_shared,
                plan.target@,
                plan.msvc,
                clang,
                input_path@,
                output_path@,
            ));
        }
    }
    args
}

/// The paths a finished build must remove: the source file, the
/// artifact, and, for MSVC, the derived intermediate object file.
pub open spec fn cleanup_list(input: Seq<char>, output: Seq<char>, msvc: bool) -> Seq<Seq<char>> {
    seq![input, output] + if msvc {
        seq![obj_path(output)]
    } else {
        Seq::empty()
    }
}

/// The cleanup paths of a build.
pub fn cleanup_paths(input_path: &String, output_path: &String, msvc: bool) -> (r: Vec<String>)
    ensures
        r@.map_values(|w: String| w@) == cleanup_list(input_path@, output_path@, msvc),
{
    let mut r: Vec<String> = Vec::new();
    r.push(clone_string(input_path));
    r.push(clone_string(output_path));
    if msvc {
        r.push(crate::command::obj_path_exec(output_path));
        proof {
            assert(r@.map_values(|w: String| w@) =~= cleanup_list(
                input_path@,
                output_path@,
                msvc,
            ));
        }
    } else {
        proof {
            assert(r@.map_values(|w: String| w@) =~= cleanup_list(
                input_path@,
                output_path@,
                msvc,
            ));
        }
    }
    r
}

/// Append a copy of every element of `extra` to `args`.
pub fn append_strings(args: &mut Vec<String>, extra: &Vec<String>)
    ensures
        final(args)@.map_values(|w: String| w@) == old(args)@.map_values(|w: String| w@)
            + extra@.map_values(|w: String| w@),
{
    let ghost base = args@.map_values(|w: String| w@);
    let ghost ex = extra@.map_values(|w: String| w@);
    let n = extra.len();
    proof {
        assert(args@.map_values(|w: String| w@) =~= base + ex.subrange(0, 0));
    }
    let mut idx: usize = 0;
    while idx < n
        invariant
            idx <= n,
            n == extra@.len(),
            ex == extra@.map_values(|w: String| w@),
            args@.map_values(|w: String| w@) == base + ex.subrange(0, idx as int),
        decreases n - idx,
    {
        let item = clone_string(&extra[idx]);
        let ghost before = args@.map_values(|w: String| w@);
        args.push(item);
        proof {
            assert(extra@.map_values(|w: String| w@)[idx as int] == extra@[idx as int]@);
            assert(args@.map_values(|w: String| w@) =~= before + seq![ex[idx as int]]);
            assert(ex.subrange(0, idx + 1 as int) =~= ex.subrange(0, idx as int) + seq![
                ex[idx as int],
            ]);
        }
        idx = idx + 1;
    }
    proof {
        assert(ex.subrange(0, n as int) =~= ex);
    }
}

/// A shared-artifact build carries the platform's shared-library flag:
/// off Windows, the Unix form `-shared`; on a Windows MSVC target, the
/// MSVC form `/LD`. Together with the output extension a plan forces —
/// none off Windows, the shared-library suffix on Windows — this pins
/// the shared-artifact behaviour of a build.
pub proof fn lemma_shared_flag_in_argv(
    vars: Map<Seq<char>, Seq<char>>,
    env: Map<Seq<char>, Seq<char>>,
    target: Seq<char>,
)
    ensures
        !has_substring(target, "windows"@) ==> compiler_flags(vars, env, true, target).contains(
            "-shared"@,
        ),
        has_substring(target, "windows"@) && has_substring(target, "msvc"@) ==> compiler_flags(
            vars,
            env,
            true,
            target,
        ).contains("/LD"@),
{
    let pre = crate::command::flag_args("CFLAGS"@, vars, env) + crate::command::flag_args(
        "CPPFLAGS"@,
        vars,
        env,
    ) + crate::command::flag_args("CXXFLAGS"@, vars, env);
    let flags = compiler_flags(vars, env, true, target);
    let idx = pre.len() as int;
    assert(flags[idx] == crate::command::shared_flag(target));
    assert(flags.contains(crate::command::shared_flag(target)));
}

/// Whether one of the strings holds exactly the characters of `w`.
pub fn word_list_has(options: &Vec<String>, w: &str) -> (r: bool)
    ensures
        r == has_word(options@.map_values(|x: String| x@), w@),
{
    let ghost view = options@.map_values(|x: String| x@);
    let n = options.len();
    let mut l: usize = 0;
    while l < n
        invariant
            l <= n,
            n == options@.len(),
            view == options@.map_values(|x: String| x@),
            forall|m: int| 0 <= m < l ==> options@[m]@ != w@,
        decreases n - l,
    {
        if crate::text::str_eq_chars(options[l].as_str(), w) {
            proof {
                assert(view[l as int] == options@[l as int]@);
            }
            return true;
        }
        l = l + 1;
    }
    proof {
        assert forall|m: int| 0 <= m < view.len() implies view[m] != w@ by {
            assert(view[m] == options@[m]@);
        }
    }
    false
}

} // verus!
