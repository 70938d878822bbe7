use inline_c::handle::RunHandle;
use inline_c::plan::prepare_build;
use inline_c::Language;

fn no_env() -> Vec<(String, String)> {
    Vec::new()
}

#[test]
fn shared_build_off_windows_forces_no_extension() {
    let plan = prepare_build(
        Language::C,
        "#inline_c_rs SHARED\nint main;",
        &no_env(),
        &"x86_64-unknown-linux-gnu".to_string(),
    );
    assert!(plan.is_shared);
    assert!(plan.output_ext.is_none());
}

#[test]
fn shared_build_on_windows_forces_dll() {
    let plan = prepare_build(
        Language::C,
        "#inline_c_rs SHARED\n#inline_c_rs TARGET: \"x86_64-pc-windows-gnu\"\nint main;",
        &no_env(),
        &"x86_64-unknown-linux-gnu".to_string(),
    );
    assert!(plan.is_shared);
    assert!(plan.windows);
    assert!(!plan.msvc);
    assert_eq!(plan.output_ext.unwrap(), ".dll");
}

#[test]
fn plain_build_on_windows_forces_exe() {
    let plan = prepare_build(
        Language::C,
        "#inline_c_rs TARGET: \"x86_64-pc-windows-msvc\"\nint main;",
        &no_env(),
        &"x86_64-unknown-linux-gnu".to_string(),
    );
    assert!(!plan.is_shared);
    assert!(plan.windows);
    assert!(plan.msvc);
    assert_eq!(plan.output_ext.unwrap(), ".exe");
}

#[test]
fn target_directive_overrides_host() {
    let plan = prepare_build(
        Language::C,
        "#inline_c_rs TARGET: \"aarch64-apple-darwin\"\nint main;",
        &no_env(),
        &"x86_64-unknown-linux-gnu".to_string(),
    );
    assert_eq!(plan.target, "aarch64-apple-darwin");
}

#[test]
fn target_from_environment() {
    let env = vec![("INLINE_C_RS_TARGET".to_string(), "x86_64-pc-windows-gnu".to_string())];
    let plan = prepare_build(Language::C, "int main;", &env, &"x86_64-unknown-linux-gnu".to_string());
    assert_eq!(plan.target, "x86_64-pc-windows-gnu");
    assert!(plan.windows);
}

#[test]
fn language_extensions() {
    assert_eq!(Language::C.extension(), "c");
    assert_eq!(Language::Cxx.extension(), "cpp");
}

#[test]
fn disposal_removes_what_exists() {
    let h = RunHandle::new(
        "/tmp/out".to_string(),
        Vec::new(),
        vec!["/tmp/in.c".to_string(), "/tmp/out".to_string(), "/tmp/out.obj".to_string()],
    );
    let all = h.dispose_list(&vec![true, true, true]);
    assert_eq!(all, vec!["/tmp/in.c", "/tmp/out", "/tmp/out.obj"]);

    let some = h.dispose_list(&vec![true, false, true]);
    assert_eq!(some, vec!["/tmp/in.c", "/tmp/out.obj"]);

    // a second disposal finds nothing left and asks for nothing
    let none = h.dispose_list(&vec![false, false, false]);
    assert_eq!(none, Vec::<String>::new());
}

#[test]
fn handle_exposes_artifact_path() {
    let h = RunHandle::new("/tmp/artifact".to_string(), Vec::new(), Vec::new());
    assert_eq!(h.output_path(), "/tmp/artifact");
}
