use inline_c::directives::{collect_environment_variables, collect_options};
use inline_c::vars::VarSet;

fn no_env() -> Vec<(String, String)> {
    Vec::new()
}

fn env_of(pairs: &[(&str, &str)]) -> Vec<(String, String)> {
    pairs.iter().map(|p| (p.0.to_string(), p.1.to_string())).collect()
}

#[test]
fn value_directive_is_extracted_and_removed() {
    let text = "abc #inline_c_rs FOO: \"bar baz qux\" xyz";
    let (clean, vars) = collect_environment_variables(text, &no_env());
    assert_eq!(clean, "abc  xyz");
    assert_eq!(vars.get("FOO").unwrap(), "bar baz qux");
}

#[test]
fn directive_key_is_trimmed() {
    let text = "#inline_c_rs  FOO : \"v\"";
    let (clean, vars) = collect_environment_variables(text, &no_env());
    assert_eq!(clean, "");
    assert_eq!(vars.get("FOO").unwrap(), "v");
}

#[test]
fn later_directive_overrides_earlier() {
    let text = "#inline_c_rs FOO: \"one\"\n#inline_c_rs FOO: \"two\"\n";
    let (clean, vars) = collect_environment_variables(text, &no_env());
    assert_eq!(clean, "\n\n");
    assert_eq!(vars.get("FOO").unwrap(), "two");
}

#[test]
fn prefixed_environment_pairs_are_taken_in() {
    let env = env_of(&[
        ("INLINE_C_RS_CFLAGS", "-D_CRT_SECURE_NO_WARNINGS"),
        ("UNRELATED", "x"),
    ]);
    let (clean, vars) = collect_environment_variables("int main;", &env);
    assert_eq!(clean, "int main;");
    assert_eq!(vars.get("CFLAGS").unwrap(), "-D_CRT_SECURE_NO_WARNINGS");
    assert!(vars.get("UNRELATED").is_none());
    assert!(vars.get("INLINE_C_RS_CFLAGS").is_none());
}

#[test]
fn source_directive_wins_over_environment() {
    let env = env_of(&[("INLINE_C_RS_FOO", "from env")]);
    let text = "#inline_c_rs FOO: \"from source\"";
    let (_, vars) = collect_environment_variables(text, &env);
    assert_eq!(vars.get("FOO").unwrap(), "from source");
}

#[test]
fn environment_applies_when_source_is_silent() {
    let env = env_of(&[("INLINE_C_RS_HELLO", "World!")]);
    let (_, vars) = collect_environment_variables("nothing here", &env);
    assert_eq!(vars.get("HELLO").unwrap(), "World!");
}

#[test]
fn several_keys_from_env_and_source() {
    let env = env_of(&[
        ("INLINE_C_RS_FOO", "bar baz qux"),
        ("INLINE_C_RS_HELLO", "World!"),
    ]);
    let (_, vars) = collect_environment_variables("x", &env);
    assert_eq!(vars.get("FOO").unwrap(), "bar baz qux");
    assert_eq!(vars.get("HELLO").unwrap(), "World!");
}

#[test]
fn option_directive_is_extracted_and_removed() {
    let text = "#inline_c_rs SHARED\nint x;";
    let (clean, options) = collect_options(text);
    assert_eq!(clean, "\nint x;");
    assert_eq!(options, vec!["SHARED".to_string()]);
}

#[test]
fn several_option_directives() {
    let text = "#inline_c_rs SHARED #inline_c_rs OTHER rest";
    let (clean, options) = collect_options(text);
    assert_eq!(clean, "  rest");
    assert_eq!(options, vec!["SHARED".to_string(), "OTHER".to_string()]);
}

#[test]
fn empty_value_is_no_directive() {
    let text = "#inline_c_rs FOO: \"\"";
    let (clean, vars) = collect_environment_variables(text, &no_env());
    assert_eq!(clean, text);
    assert!(vars.get("FOO").is_none());
}

#[test]
fn unquoted_value_is_no_value_directive() {
    // without quotes the value form does not match; the option pass then
    // reads the key portion as a bare word
    let text = "#inline_c_rs FOO: bar";
    let (clean, vars) = collect_environment_variables(text, &no_env());
    assert_eq!(clean, text);
    assert!(vars.get("FOO").is_none());
    let (clean2, options) = collect_options(&clean);
    assert_eq!(clean2, ": bar");
    assert_eq!(options, vec!["FOO".to_string()]);
}

#[test]
fn var_set_insert_and_get() {
    let mut vs = VarSet::new();
    vs.insert("A".to_string(), "1".to_string());
    vs.insert("B".to_string(), "2".to_string());
    vs.insert("A".to_string(), "3".to_string());
    assert_eq!(vs.get("A").unwrap(), "3");
    assert_eq!(vs.get("B").unwrap(), "2");
    assert!(vs.get("C").is_none());
}
