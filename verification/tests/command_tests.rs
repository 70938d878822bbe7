use inline_c::command::{
    command_add_compiler_flags, command_add_output_file, get_env_flags, obj_path_exec, split_ws,
};
use inline_c::plan::{build_compile_args, cleanup_paths, prepare_build};
use inline_c::vars::VarSet;
use inline_c::Language;

fn vars_of(pairs: &[(&str, &str)]) -> VarSet {
    let mut vs = VarSet::new();
    for p in pairs {
        vs.insert(p.0.to_string(), p.1.to_string());
    }
    vs
}

fn env_of(pairs: &[(&str, &str)]) -> Vec<(String, String)> {
    pairs.iter().map(|p| (p.0.to_string(), p.1.to_string())).collect()
}

#[test]
fn split_on_whitespace() {
    assert_eq!(split_ws("a  b\tc"), vec!["a", "b", "c"]);
    assert_eq!(split_ws("  "), Vec::<String>::new());
    assert_eq!(split_ws(""), Vec::<String>::new());
    assert_eq!(split_ws(" -O2 -g "), vec!["-O2", "-g"]);
}

#[test]
fn flags_from_variable_set_first() {
    let vars = vars_of(&[("CFLAGS", "-O2 -g")]);
    let env = env_of(&[("CFLAGS", "-O0")]);
    assert_eq!(get_env_flags("CFLAGS", &vars, &env), vec!["-O2", "-g"]);
}

#[test]
fn flags_fall_back_to_environment() {
    let vars = VarSet::new();
    let env = env_of(&[("CFLAGS", "-O0 -Wall")]);
    assert_eq!(get_env_flags("CFLAGS", &vars, &env), vec!["-O0", "-Wall"]);
    assert_eq!(get_env_flags("LDFLAGS", &vars, &env), Vec::<String>::new());
}

#[test]
fn compiler_flags_order_and_linker_wrapping() {
    let vars = vars_of(&[("CFLAGS", "-a"), ("CXXFLAGS", "-b"), ("LDFLAGS", "x y")]);
    let env = no_env();
    let mut args: Vec<String> = Vec::new();
    command_add_compiler_flags(
        &mut args,
        &vars,
        &env,
        true,
        &"x86_64-unknown-linux-gnu".to_string(),
    );
    assert_eq!(args, vec!["-a", "-b", "-shared", "-Wl,x", "-Wl,y"]);
}

fn no_env() -> Vec<(String, String)> {
    Vec::new()
}

#[test]
fn shared_flag_forms() {
    let vars = VarSet::new();
    let env = no_env();
    let mut unix: Vec<String> = Vec::new();
    command_add_compiler_flags(&mut unix, &vars, &env, true, &"aarch64-apple-darwin".to_string());
    assert_eq!(unix, vec!["-shared"]);

    let mut mingw: Vec<String> = Vec::new();
    command_add_compiler_flags(&mut mingw, &vars, &env, true, &"x86_64-pc-windows-gnu".to_string());
    assert_eq!(mingw, vec!["-shared"]);

    let mut msvc: Vec<String> = Vec::new();
    command_add_compiler_flags(&mut msvc, &vars, &env, true, &"x86_64-pc-windows-msvc".to_string());
    assert_eq!(msvc, vec!["/LD"]);

    let mut none: Vec<String> = Vec::new();
    command_add_compiler_flags(&mut none, &vars, &env, false, &"x86_64-pc-windows-msvc".to_string());
    assert_eq!(none, Vec::<String>::new());
}

#[test]
fn object_path_replaces_extension() {
    assert_eq!(obj_path_exec(&"/tmp/out.exe".to_string()), "/tmp/out.obj");
    assert_eq!(obj_path_exec(&"/tmp/out".to_string()), "/tmp/out.obj");
    assert_eq!(obj_path_exec(&"/tmp/a.b/out".to_string()), "/tmp/a.b/out.obj");
    assert_eq!(obj_path_exec(&"/tmp/.hidden".to_string()), "/tmp/.hidden.obj");
    assert_eq!(obj_path_exec(&"C:\\t\\out.dll".to_string()), "C:\\t\\out.obj");
}

#[test]
fn output_file_argument_forms() {
    let mut unix: Vec<String> = Vec::new();
    command_add_output_file(&mut unix, &"/tmp/out".to_string(), false, false);
    assert_eq!(unix, vec!["-o", "/tmp/out"]);

    let mut clang_cl: Vec<String> = Vec::new();
    command_add_output_file(&mut clang_cl, &"/tmp/out.exe".to_string(), true, true);
    assert_eq!(clang_cl, vec!["-o", "/tmp/out.exe"]);

    let mut msvc: Vec<String> = Vec::new();
    command_add_output_file(&mut msvc, &"/tmp/out.exe".to_string(), true, false);
    assert_eq!(msvc, vec!["-Fo/tmp/out.obj", "-Fe/tmp/out.exe"]);
}

#[test]
fn full_argument_order_unix() {
    let plan = prepare_build(Language::C, "int main;", &no_env(), &"x86_64-unknown-linux-gnu".to_string());
    let tool_args = vec!["-std=c99".to_string()];
    let args = build_compile_args(
        &tool_args,
        &plan,
        &no_env(),
        false,
        &"/tmp/in.c".to_string(),
        &"/tmp/out".to_string(),
    );
    assert_eq!(args, vec!["/tmp/in.c", "-std=c99", "-o", "/tmp/out"]);
}

#[test]
fn full_argument_order_msvc() {
    let plan = prepare_build(
        Language::C,
        "#inline_c_rs TARGET: \"x86_64-pc-windows-msvc\"\nint main;",
        &no_env(),
        &"x86_64-unknown-linux-gnu".to_string(),
    );
    assert!(plan.msvc);
    let tool_args = vec!["/nologo".to_string()];
    let args = build_compile_args(
        &tool_args,
        &plan,
        &no_env(),
        false,
        &"/tmp/in.c".to_string(),
        &"/tmp/out.exe".to_string(),
    );
    assert_eq!(
        args,
        vec!["/nologo", "-Fo/tmp/out.obj", "-Fe/tmp/out.exe", "/tmp/in.c"]
    );
}

#[test]
fn cleanup_paths_track_the_msvc_object() {
    let plain = cleanup_paths(&"/tmp/in.c".to_string(), &"/tmp/out".to_string(), false);
    assert_eq!(plain, vec!["/tmp/in.c", "/tmp/out"]);
    let msvc = cleanup_paths(&"/tmp/in.c".to_string(), &"/tmp/out.exe".to_string(), true);
    assert_eq!(msvc, vec!["/tmp/in.c", "/tmp/out.exe", "/tmp/out.obj"]);
}

#[test]
fn build_plan_fields() {
    let plan = prepare_build(
        Language::Cxx,
        "#inline_c_rs SHARED\n#inline_c_rs FOO: \"bar\"\nint main;",
        &env_of(&[("INLINE_C_RS_CFLAGS", "-g")]),
        &"x86_64-unknown-linux-gnu".to_string(),
    );
    assert!(plan.is_shared);
    assert_eq!(plan.program, "\n\nint main;");
    assert_eq!(plan.vars.get("FOO").unwrap(), "bar");
    assert_eq!(plan.vars.get("CFLAGS").unwrap(), "-g");
    assert_eq!(plan.target, "x86_64-unknown-linux-gnu");
    assert!(!plan.msvc);
    assert!(!plan.windows);
    assert_eq!(plan.source_ext, "cpp");
    assert!(plan.output_ext.is_none());
}
