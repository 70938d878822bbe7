//! Assembly of the external compiler's argument list.
use vstd::prelude::*;
use crate::text::{has_substring, str_to_chars, string_from_chars, str_contains, clone_string};
use crate::vars::{VarSet, assoc_map, pairs_view, assoc_get};

verus! {

/// An ASCII whitespace character, as flag values are split on.
pub open spec fn is_ascii_ws(c: char) -> bool {
    c == ' ' || c == '\t' || c == '\n' || c == '\r' || c == '\x0c'
}

/// First position at or after `i` that holds no whitespace.
pub open spec fn scan_ws(s: Seq<char>, i: int) -> int
    decreases s.len() - i,
{
    if 0 <= i < s.len() && is_ascii_ws(s[i]) {
        scan_ws(s, i + 1)
    } else {
        i
    }
}

/// First position at or after `i` that holds whitespace, or the end.
pub open spec fn scan_nonws(s: Seq<char>, i: int) -> int
    decreases s.len() - i,
{
    if 0 <= i < s.len() && !is_ascii_ws(s[i]) {
        scan_nonws(s, i + 1)
    } else {
        i
    }
}

pub proof fn lemma_ws_scan_bounds(s: Seq<char>, i: int)
    requires
        0 <= i <= s.len(),
    ensures
        i <= scan_ws(s, i) <= s.len(),
        i <= scan_nonws(s, i) <= s.len(),
    decreases s.len() - i,
{
    if i < s.len() {
        lemma_ws_scan_bounds(s, i + 1);
    }
}

/// The whitespace-separated words of the text from `i` on.
pub open spec fn split_ws_from(s: Seq<char>, i: int) -> Seq<Seq<char>>
    decreases s.len() - i,
    via split_ws_dec
{
    if !(0 <= i <= s.len()) {
        Seq::empty()
    } else {
        let a = scan_ws(s, i);
        if a >= s.len() {
            Seq::empty()
        } else {
            let b = scan_nonws(s, a);
            seq![s.subrange(a, b)] + split_ws_from(s, b)
        }
    }
}

/// The scans stop on a character of the other class.
pub proof fn lemma_ws_scan_stop(s: Seq<char>, i: int)
    requires
        0 <= i <= s.len(),
    ensures
        scan_ws(s, i) < s.len() ==> !is_ascii_ws(s[scan_ws(s, i)]),
        scan_nonws(s, i) < s.len() ==> is_ascii_ws(s[scan_nonws(s, i)]),
    decreases s.len() - i,
{
    if i < s.len() {
        lemma_ws_scan_stop(s, i + 1);
    }
}

#[via_fn]
proof fn split_ws_dec(s: Seq<char>, i: int) {
    if 0 <= i <= s.len() {
        lemma_ws_scan_bounds(s, i);
        lemma_ws_scan_stop(s, i);
        let a = scan_ws(s, i);
        if a < s.len() {
            lemma_ws_scan_bounds(s, a + 1);
        }
    }
}

/// Split a flag value on ASCII whitespace into discrete arguments.
pub fn split_ws(s: &str) -> (r: Vec<String>)
    ensures
        r@.map_values(|w: String| w@) == split_ws_from(s@, 0),
{
    let v = str_to_chars(s);
    let n = v.len();
    let mut words: Vec<String> = Vec::new();
    let mut i: usize = 0;
    proof {
        assert(words@.map_values(|w: String| w@) + split_ws_from(v@, 0) =~= split_ws_from(v@, 0));
    }
    while i < n
        invariant
            i <= n,
            n == v@.len(),
            v@ == s@,
            split_ws_from(s@, 0) == words@.map_values(|w: String| w@) + split_ws_from(
                v@,
                i as int,
            ),
        decreases n - i,
    {
        let a = scan_ws_exec(&v, i);
        if a >= n {
            proof {
                assert(split_ws_from(v@, i as int) =~= Seq::<Seq<char>>::empty());
                assert(words@.map_values(|w: String| w@) + split_ws_from(v@, i as int)
                    =~= words@.map_values(|w: String| w@));
            }
            return words;
        }
        proof {
            lemma_ws_scan_stop(v@, i as int);
            lemma_ws_scan_bounds(v@, a + 1 as int);
        }
        let b = scan_nonws_exec(&v, a);
        let word_v = crate::text::copy_range(&v, a, b);
        let word = string_from_chars(&word_v);
        let ghost ws_before = words@;
        let ghost ww = word@;
        words.push(word);
        proof {
            assert(b > a);
            assert(words@.map_values(|w: String| w@) =~= ws_before.map_values(|w: String| w@)
                + seq![ww]);
            assert(split_ws_from(v@, i as int) =~= seq![ww] + split_ws_from(v@, b as int));
        }
        i = b;
    }
    proof {
        assert(split_ws_from(v@, n as int) =~= Seq::<Seq<char>>::empty());
        assert(words@.map_values(|w: String| w@) + split_ws_from(v@, n as int) =~= words@.map_values(
            |w: String| w@,
        ));
    }
    words
}

fn scan_ws_exec(s: &Vec<char>, from: usize) -> (j: usize)
    requires
        from <= s@.len(),
    ensures
        j == scan_ws(s@, from as int),
        from <= j <= s@.len(),
{
    let n = s.len();
    let mut j = from;
    while j < n && (s[j] == ' ' || s[j] == '\t' || s[j] == '\n' || s[j] == '\r' || s[j] == '\x0c')
        invariant
            from <= j <= n,
            n == s@.len(),
            scan_ws(s@, from as int) == scan_ws(s@, j as int),
        decreases n - j,
    {
        j = j + 1;
    }
    j
}

fn scan_nonws_exec(s: &Vec<char>, from: usize) -> (j: usize)
    requires
        from <= s@.len(),
    ensures
        j == scan_nonws(s@, from as int),
        from <= j <= s@.len(),
{
    let n = s.len();
    let mut j = from;
    while j < n && !(s[j] == ' ' || s[j] == '\t' || s[j] == '\n' || s[j] == '\r' || s[j]
        == '\x0c')
        invariant
            from <= j <= n,
            n == s@.len(),
            scan_nonws(s@, from as int) == scan_nonws(s@, j as int),
        decreases n - j,
    {
        j = j + 1;
    }
    j
}

/// The value a flag name stands for: the variable set first, then the
/// process environment, then empty.
pub open spec fn flag_source(
    name: Seq<char>,
    vars: Map<Seq<char>, Seq<char>>,
    env: Map<Seq<char>, Seq<char>>,
) -> Seq<char> {
    if vars.contains_key(name) {
        vars[name]
    } else if env.contains_key(name) {
        env[name]
    } else {
        Seq::empty()
    }
}

/// The discrete arguments a flag name contributes.
pub open spec fn flag_args(
    name: Seq<char>,
    vars: Map<Seq<char>, Seq<char>>,
    env: Map<Seq<char>, Seq<char>>,
) -> Seq<Seq<char>> {
    split_ws_from(flag_source(name, vars, env), 0)
}

/// The flag value named `name`, from the variable set first, else from
/// the environment snapshot, split on whitespace.
pub fn get_env_flags(name: &str, vars: &VarSet, env: &Vec<(String, String)>) -> (r: Vec<String>)
    ensures
        r@.map_values(|w: String| w@) == flag_args(
            name@,
            vars@,
            assoc_map(pairs_view(env@)),
        ),
{
    match vars.get(name) {
        Some(v) => split_ws(v.as_str()),
        None => match assoc_get(env, name) {
            Some(v) => split_ws(v.as_str()),
            None => {
                let r: Vec<String> = Vec::new();
                proof {
                    reveal_strlit("");
                    assert(scan_ws(Seq::<char>::empty(), 0) == 0);
                    assert(split_ws_from(Seq::<char>::empty(), 0) =~= Seq::<Seq<char>>::empty());
                    assert(r@.map_values(|w: String| w@) =~= Seq::<Seq<char>>::empty());
                }
                r
            },
        },
    }
}

/// The platform's shared-library flag: the MSVC form on a Windows MSVC
/// target, the Unix form everywhere else (MinGW included).
pub open spec fn shared_flag(target: Seq<char>) -> Seq<char> {
    if has_substring(target, "windows"@) && has_substring(target, "msvc"@) {
        "/LD"@
    } else {
        "-shared"@
    }
}

/// Every flag argument the compiler invocation carries, in order:
/// `CFLAGS`, then `CPPFLAGS`, then `CXXFLAGS`, each split on whitespace;
/// the shared-library flag when a shared artifact is wanted; then each
/// `LDFLAGS` word wrapped in the linker-passthrough form `-Wl,`.
pub open spec fn compiler_flags(
    vars: Map<Seq<char>, Seq<char>>,
    env: Map<Seq<char>, Seq<char>>,
    is_shared: bool,
    target: Seq<char>,
) -> Seq<Seq<char>> {
    flag_args("CFLAGS"@, vars, env) + flag_args("CPPFLAGS"@, vars, env) + flag_args(
        "CXXFLAGS"@,
        vars,
        env,
    ) + (if is_shared {
        seq![shared_flag(target)]
    } else {
        Seq::empty()
    }) + flag_args("LDFLAGS"@, vars, env).map_values(|f: Seq<char>| "-Wl,"@ + f)
}

/// Append the aggregated compiler flags to `args`.
pub fn command_add_compiler_flags(
    args: &mut Vec<String>,
    vars: &VarSet,
    env: &Vec<(String, String)>,
    is_shared: bool,
    target: &String,
)
    ensures
        final(args)@.map_values(|w: String| w@) == old(args)@.map_values(|w: String| w@)
            + compiler_flags(vars@, assoc_map(pairs_view(env@)), is_shared, target@),
{
    let ghost base = args@.map_values(|w: String| w@);
    let ghost varm = vars@;
    let ghost envm = assoc_map(pairs_view(env@));
    let cflags = get_env_flags("CFLAGS", vars, env);
    let cppflags = get_env_flags("CPPFLAGS", vars, env);
    let cxxflags = get_env_flags("CXXFLAGS", vars, env);
    let ldflags = get_env_flags("LDFLAGS", vars, env);
    crate::plan::append_strings(args, &cflags);
    crate::plan::append_strings(args, &cppflags);
    crate::plan::append_strings(args, &cxxflags);
    let ghost mid = args@.map_values(|w: String| w@);
    proof {
        assert(mid =~= base + flag_args("CFLAGS"@, varm, envm) + flag_args("CPPFLAGS"@, varm, envm)
            + flag_args("CXXFLAGS"@, varm, envm));
    }
    if is_shared {
        if str_contains(target, "windows") && str_contains(target, "msvc") {
            args.push("/LD".to_owned());
        } else {
            args.push("-shared".to_owned());
        }
        proof {
            assert(args@.map_values(|w: String| w@) =~= mid + seq![shared_flag(target@)]);
        }
    }
    let ghost mid2 = args@.map_values(|w: String| w@);
    proof {
        assert(mid2 =~= mid + (if is_shared {
            seq![shared_flag(target@)]
        } else {
            Seq::<Seq<char>>::empty()
        }));
    }
    let mut l: usize = 0;
    let nl = ldflags.len();
    while l < nl
        invariant
            l <= nl,
            nl == ldflags@.len(),
            ldflags@.map_values(|w: String| w@) == flag_args("LDFLAGS"@, varm, envm),
            args@.map_values(|w: String| w@) == mid2 + flag_args(
                "LDFLAGS"@,
                varm,
                envm,
            ).subrange(0, l as int).map_values(|f: Seq<char>| "-Wl,"@ + f),
        decreases nl - l,
    {
        let wrapped = "-Wl,".to_owned().concat(ldflags[l].as_str());
        let ghost before = args@.map_values(|w: String| w@);
        args.push(wrapped);
        proof {
            let lds = flag_args("LDFLAGS"@, varm, envm);
            assert(ldflags@.map_values(|w: String| w@)[l as int] == ldflags@[l as int]@);
            assert(args@.map_values(|w: String| w@) =~= before + seq!["-Wl,"@ + lds[l as int]]);
            assert(lds.subrange(0, l + 1 as int).map_values(|f: Seq<char>| "-Wl,"@ + f)
                =~= lds.subrange(0, l as int).map_values(|f: Seq<char>| "-Wl,"@ + f) + seq![
                "-Wl,"@ + lds[l as int],
            ]);
        }
        l = l + 1;
    }
    proof {
        let lds = flag_args("LDFLAGS"@, varm, envm);
        assert(lds.subrange(0, lds.len() as int) =~= lds);
        assert(args@.map_values(|w: String| w@) =~= base + compiler_flags(
            varm,
            envm,
            is_shared,
            target@,
        ));
    }
}

/// A path separator character.
pub open spec fn is_sep(c: char) -> bool {
    c == '/' || c == '\\'
}

/// The last separator position strictly before `j`, or -1.
pub open spec fn last_sep_before(p: Seq<char>, j: int) -> int
    decreases j,
{
    if j <= 0 || j > p.len() {
        -1
    } else if is_sep(p[j - 1]) {
        j - 1
    } else {
        last_sep_before(p, j - 1)
    }
}

/// The last dot position strictly before `j` and strictly after `lo`,
/// or -1.
pub open spec fn last_dot_before(p: Seq<char>, j: int, lo: int) -> int
    decreases j,
{
    if j <= lo + 1 || j <= 0 || j > p.len() {
        -1
    } else if p[j - 1] == '.' {
        j - 1
    } else {
        last_dot_before(p, j - 1, lo)
    }
}

/// The intermediate object path an MSVC toolchain derives from the
/// output path: the file name's extension replaced by `obj`, or `.obj`
/// appended when the file name has none. A dot that starts the file
/// name does not count as an extension.
pub open spec fn obj_path(p: Seq<char>) -> Seq<char> {
    let sp = last_sep_before(p, p.len() as int);
    let d = last_dot_before(p, p.len() as int, sp + 1);
    if d >= 0 {
        p.subrange(0, d) + ".obj"@
    } else {
        p + ".obj"@
    }
}

proof fn lemma_last_sep_range(p: Seq<char>, j: int)
    requires
        j >= 0,
    ensures
        -1 <= last_sep_before(p, j) < j,
        last_sep_before(p, j) < p.len(),
    decreases j,
{
    if !(j <= 0 || j > p.len()) && !is_sep(p[j - 1]) {
        lemma_last_sep_range(p, j - 1);
    }
}

proof fn lemma_last_dot_range(p: Seq<char>, j: int, lo: int)
    ensures
        last_dot_before(p, j, lo) == -1 || (lo < last_dot_before(p, j, lo) < j && last_dot_before(
            p,
            j,
            lo,
        ) < p.len()),
    decreases j,
{
    if !(j <= lo + 1 || j <= 0 || j > p.len()) && p[j - 1] != '.' {
        lemma_last_dot_range(p, j - 1, lo);
    }
}

/// The object path of `path`, as a string.
pub fn obj_path_exec(path: &String) -> (r: String)
    ensures
        r@ == obj_path(path@),
{
    let v = str_to_chars(path.as_str());
    let n = v.len();
    let mut j = n;
    while j > 0 && v[j - 1] != '/' && v[j - 1] != '\\'
        invariant
            j <= n,
            n == v@.len(),
            last_sep_before(v@, n as int) == last_sep_before(v@, j as int),
        decreases j,
    {
        j = j - 1;
    }
    // the separator position, plus one: the start of the file name
    let name_start: usize = j;
    proof {
        if j > 0 {
            assert(last_sep_before(v@, j as int) == j - 1);
        } else {
            assert(last_sep_before(v@, 0) == -1);
        }
        assert(last_sep_before(v@, n as int) + 1 == name_start as int);
    }
    let mut d_found = false;
    let mut d: usize = 0;
    let mut k = n;
    while k > 0 && k - 1 > name_start && v[k - 1] != '.'
        invariant
            name_start <= n,
            k <= n,
            n == v@.len(),
            k >= name_start,
            last_dot_before(v@, n as int, name_start as int) == last_dot_before(
                v@,
                k as int,
                name_start as int,
            ),
        decreases k,
    {
        k = k - 1;
    }
    if k > 0 && k - 1 > name_start {
        d_found = true;
        d = k - 1;
        proof {
            assert(last_dot_before(v@, k as int, name_start as int) == k - 1);
        }
    } else {
        proof {
            assert(last_dot_before(v@, k as int, name_start as int) == -1);
        }
    }
    let mut out: Vec<char> = if d_found {
        crate::text::copy_range(&v, 0, d)
    } else {
        crate::text::copy_range(&v, 0, n)
    };
    crate::text::push_str_chars(&mut out, ".obj");
    proof {
        if d_found {
            assert(out@ =~= v@.subrange(0, d as int) + ".obj"@);
        } else {
            assert(v@.subrange(0, n as int) =~= v@);
            assert(out@ =~= v@ + ".obj"@);
        }
    }
    string_from_chars(&out)
}

/// The output-file arguments of the compiler invocation: the MSVC form
/// names the intermediate object path and the final output path in two
/// arguments; every other toolchain, clang-compatible MSVC front ends
/// included, takes `-o` and the output path.
pub open spec fn output_args(out: Seq<char>, msvc: bool, clang: bool) -> Seq<Seq<char>> {
    if msvc && !clang {
        seq!["-Fo"@ + obj_path(out), "-Fe"@ + out]
    } else {
        seq!["-o"@, out]
    }
}

/// Append the output-file arguments to `args`.
pub fn command_add_output_file(
    args: &mut Vec<String>,
    output_path: &String,
    msvc: bool,
    clang: bool,
)
    ensures
        final(args)@.map_values(|w: String| w@) == old(args)@.map_values(|w: String| w@)
            + output_args(output_path@, msvc, clang),
{
    let ghost base = args@.map_values(|w: String| w@);
    if msvc && !clang {
        let obj = obj_path_exec(output_path);
        let fo = "-Fo".to_owned().concat(obj.as_str());
        let fe = "-Fe".to_owned().concat(output_path.as_str());
        let ghost fov = fo@;
        let ghost fev = fe@;
        args.push(fo);
        args.push(fe);
        proof {
            assert(args@.map_values(|w: String| w@) =~= base + seq![fov, fev]);
        }
    } else {
        let o = "-o".to_owned();
        let outp = clone_string(output_path);
        args.push(o);
        args.push(outp);
        proof {
            assert(args@.map_values(|w: String| w@) =~= base + seq!["-o"@, output_path@]);
        }
    }
}

} // verus!
