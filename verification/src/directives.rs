//! Extraction of in-source build directives.
//!
//! Two forms are recognised, each introduced by the marker text
//! `#inline_c_rs `: a value form `KEY: "VALUE"`, and a bare option form
//! `WORD`. Matches are removed from the text, so the compiler never
//! sees them; the rest of the text is kept byte for byte.
use vstd::prelude::*;
use crate::text::{occurs_at, str_to_chars, string_from_chars, chars_occur_at, copy_range, clone_string};
use crate::vars::{VarSet, pairs_view, assoc_map};

verus! {

/// A character a directive key may hold: anything but the colon that
/// ends the key and a line break.
pub open spec fn is_name_char(c: char) -> bool {
    c != ':' && c != '\n' && c != '\r'
}

/// A whitespace character, as the directive grammar counts whitespace.
pub open spec fn is_space_char(c: char) -> bool {
    c == ' ' || c == '\t' || c == '\n' || c == '\r' || c == '\x0b' || c == '\x0c'
}

/// A word character: ASCII letters, digits and underscore.
pub open spec fn is_word_char(c: char) -> bool {
    ('a' <= c && c <= 'z') || ('A' <= c && c <= 'Z') || ('0' <= c && c <= '9') || c == '_'
}

/// First position at or after `i` that ends a run of key characters.
pub open spec fn scan_name(s: Seq<char>, i: int) -> int
    decreases s.len() - i,
{
    if 0 <= i < s.len() && is_name_char(s[i]) {
        scan_name(s, i + 1)
    } else {
        i
    }
}

/// First position at or after `i` that ends a run of whitespace.
pub open spec fn scan_space(s: Seq<char>, i: int) -> int
    decreases s.len() - i,
{
    if 0 <= i < s.len() && is_space_char(s[i]) {
        scan_space(s, i + 1)
    } else {
        i
    }
}

/// First position at or after `i` holding a double quote, or the end.
pub open spec fn scan_value(s: Seq<char>, i: int) -> int
    decreases s.len() - i,
{
    if 0 <= i < s.len() && s[i] != '"' {
        scan_value(s, i + 1)
    } else {
        i
    }
}

/// First position at or after `i` that ends a run of word characters.
pub open spec fn scan_word(s: Seq<char>, i: int) -> int
    decreases s.len() - i,
{
    if 0 <= i < s.len() && is_word_char(s[i]) {
        scan_word(s, i + 1)
    } else {
        i
    }
}

pub proof fn lemma_scan_bounds(s: Seq<char>, i: int)
    requires
        0 <= i <= s.len(),
    ensures
        i <= scan_name(s, i) <= s.len(),
        i <= scan_space(s, i) <= s.len(),
        i <= scan_value(s, i) <= s.len(),
        i <= scan_word(s, i) <= s.len(),
    decreases s.len() - i,
{
    if i < s.len() {
        lemma_scan_bounds(s, i + 1);
    }
}

/// The text with leading and trailing whitespace removed.
pub open spec fn trim_spaces(s: Seq<char>) -> Seq<char>
    decreases s.len(),
{
    if s.len() == 0 {
        s
    } else if is_space_char(s[0]) {
        trim_spaces(s.drop_first())
    } else if is_space_char(s.last()) {
        trim_spaces(s.drop_last())
    } else {
        s
    }
}

/// A value-form directive starting exactly at `i`: the marker, a
/// non-empty run of key characters up to a colon, optional whitespace,
/// then a non-empty double-quoted value. Yields the raw key, the value,
/// and the position after the closing quote.
pub open spec fn var_match_at(s: Seq<char>, i: int) -> Option<(Seq<char>, Seq<char>, int)> {
    if !occurs_at(s, "#inline_c_rs "@, i) {
        None
    } else {
        let p = i + 13;
        let j = scan_name(s, p);
        if j == p || j >= s.len() || s[j] != ':' {
            None
        } else {
            let k = scan_space(s, j + 1);
            if k >= s.len() || s[k] != '"' {
                None
            } else {
                let m = scan_value(s, k + 1);
                if m >= s.len() || m == k + 1 {
                    None
                } else {
                    Some((s.subrange(p, j), s.subrange(k + 1, m), m + 1))
                }
            }
        }
    }
}

pub proof fn lemma_var_match_bounds(s: Seq<char>, i: int)
    ensures
        var_match_at(s, i) matches Some(t) ==> i + 13 < t.2 <= s.len(),
{
    if let Some((nm, v, end)) = var_match_at(s, i) {
        assert(occurs_at(s, "#inline_c_rs "@, i));
        reveal_strlit("#inline_c_rs ");
        lemma_scan_bounds(s, i + 13);
        let j = scan_name(s, i + 13);
        lemma_scan_bounds(s, j + 1);
        let k = scan_space(s, j + 1);
        lemma_scan_bounds(s, k + 1);
    }
}

/// The leftmost value-form directive at or after `i`: its start, raw
/// key, value, and the position after it.
pub open spec fn find_var_from(s: Seq<char>, i: int) -> Option<(int, Seq<char>, Seq<char>, int)>
    decreases s.len() - i,
{
    if !(0 <= i < s.len()) {
        None
    } else {
        match var_match_at(s, i) {
            Some((nm, v, end)) => Some((i, nm, v, end)),
            None => find_var_from(s, i + 1),
        }
    }
}

pub proof fn lemma_find_var_bounds(s: Seq<char>, i: int)
    ensures
        find_var_from(s, i) matches Some(t) ==> i <= t.0 && t.0 + 13 < t.3 <= s.len(),
    decreases s.len() - i,
{
    if 0 <= i < s.len() {
        lemma_var_match_bounds(s, i);
        lemma_find_var_bounds(s, i + 1);
    }
}

/// The value-form directives of the text from `i` on, in match order:
/// the key trimmed of surrounding whitespace, and the value.
pub open spec fn var_directives_from(s: Seq<char>, i: int) -> Seq<(Seq<char>, Seq<char>)>
    decreases s.len() - i,
    via var_directives_dec
{
    match find_var_from(s, i) {
        Option::None => Seq::empty(),
        Option::Some((st, nm, v, end)) => seq![(trim_spaces(nm), v)] + var_directives_from(s, end),
    }
}

#[via_fn]
proof fn var_directives_dec(s: Seq<char>, i: int) {
    lemma_find_var_bounds(s, i);
}

/// The text from `i` on with every value-form directive removed.
pub open spec fn strip_vars_from(s: Seq<char>, i: int) -> Seq<char>
    decreases s.len() - i,
    via strip_vars_dec
{
    match find_var_from(s, i) {
        Option::None => if i <= s.len() {
            s.skip(i)
        } else {
            Seq::empty()
        },
        Option::Some((st, nm, v, end)) => s.subrange(i, st) + strip_vars_from(s, end),
    }
}

#[via_fn]
proof fn strip_vars_dec(s: Seq<char>, i: int) {
    lemma_find_var_bounds(s, i);
}

/// An option-form directive starting exactly at `i`: the marker followed
/// by a non-empty run of word characters. Yields the word and the
/// position after it.
pub open spec fn word_match_at(s: Seq<char>, i: int) -> Option<(Seq<char>, int)> {
    if !occurs_at(s, "#inline_c_rs "@, i) {
        None
    } else {
        let p = i + 13;
        let w = scan_word(s, p);
        if w == p {
            None
        } else {
            Some((s.subrange(p, w), w))
        }
    }
}

pub proof fn lemma_word_match_bounds(s: Seq<char>, i: int)
    ensures
        word_match_at(s, i) matches Some(t) ==> i + 13 < t.1 <= s.len(),
{
    if let Some((nm, end)) = word_match_at(s, i) {
        assert(occurs_at(s, "#inline_c_rs "@, i));
        reveal_strlit("#inline_c_rs ");
        lemma_scan_bounds(s, i + 13);
    }
}

/// The leftmost option-form directive at or after `i`.
pub open spec fn find_word_from(s: Seq<char>, i: int) -> Option<(int, Seq<char>, int)>
    decreases s.len() - i,
{
    if !(0 <= i < s.len()) {
        None
    } else {
        match word_match_at(s, i) {
            Some((nm, end)) => Some((i, nm, end)),
            None => find_word_from(s, i + 1),
        }
    }
}

pub proof fn lemma_find_word_bounds(s: Seq<char>, i: int)
    ensures
        find_word_from(s, i) matches Some(t) ==> i <= t.0 && t.0 + 13 < t.2 <= s.len(),
    decreases s.len() - i,
{
    if 0 <= i < s.len() {
        lemma_word_match_bounds(s, i);
        lemma_find_word_bounds(s, i + 1);
    }
}

/// The option words of the text from `i` on, in match order.
pub open spec fn word_directives_from(s: Seq<char>, i: int) -> Seq<Seq<char>>
    decreases s.len() - i,
    via word_directives_dec
{
    match find_word_from(s, i) {
        Option::None => Seq::empty(),
        Option::Some((st, nm, end)) => seq![nm] + word_directives_from(s, end),
    }
}

#[via_fn]
proof fn word_directives_dec(s: Seq<char>, i: int) {
    lemma_find_word_bounds(s, i);
}

/// The text from `i` on with every option-form directive removed.
pub open spec fn strip_words_from(s: Seq<char>, i: int) -> Seq<char>
    decreases s.len() - i,
    via strip_words_dec
{
    match find_word_from(s, i) {
        Option::None => if i <= s.len() {
            s.skip(i)
        } else {
            Seq::empty()
        },
        Option::Some((st, nm, end)) => s.subrange(i, st) + strip_words_from(s, end),
    }
}

#[via_fn]
proof fn strip_words_dec(s: Seq<char>, i: int) {
    lemma_find_word_bounds(s, i);
}

fn scan_name_exec(s: &Vec<char>, from: usize) -> (j: usize)
    requires
        from <= s@.len(),
    ensures
        j == scan_name(s@, from as int),
        from <= j <= s@.len(),
{
    let n = s.len();
    let mut j = from;
    while j < n && s[j] != ':' && s[j] != '\n' && s[j] != '\r'
        invariant
            from <= j <= n,
            n == s@.len(),
            scan_name(s@, from as int) == scan_name(s@, j as int),
        decreases n - j,
    {
        j = j + 1;
    }
    j
}

fn scan_space_exec(s: &Vec<char>, from: usize) -> (j: usize)
    requires
        from <= s@.len(),
    ensures
        j == scan_space(s@, from as int),
        from <= j <= s@.len(),
{
    let n = s.len();
    let mut j = from;
    while j < n && (s[j] == ' ' || s[j] == '\t' || s[j] == '\n' || s[j] == '\r' || s[j] == '\x0b'
        || s[j] == '\x0c')
        invariant
            from <= j <= n,
            n == s@.len(),
            scan_space(s@, from as int) == scan_space(s@, j as int),
        decreases n - j,
    {
        j = j + 1;
    }
    j
}

fn scan_value_exec(s: &Vec<char>, from: usize) -> (j: usize)
    requires
        from <= s@.len(),
    ensures
        j == scan_value(s@, from as int),
        from <= j <= s@.len(),
{
    let n = s.len();
    let mut j = from;
    while j < n && s[j] != '"'
        invariant
            from <= j <= n,
            n == s@.len(),
            scan_value(s@, from as int) == scan_value(s@, j as int),
        decreases n - j,
    {
        j = j + 1;
    }
    j
}

fn scan_word_exec(s: &Vec<char>, from: usize) -> (j: usize)
    requires
        from <= s@.len(),
    ensures
        j == scan_word(s@, from as int),
        from <= j <= s@.len(),
{
    let n = s.len();
    let mut j = from;
    while j < n && (('a' <= s[j] && s[j] <= 'z') || ('A' <= s[j] && s[j] <= 'Z') || ('0' <= s[j]
        && s[j] <= '9') || s[j] == '_')
        invariant
            from <= j <= n,
            n == s@.len(),
            scan_word(s@, from as int) == scan_word(s@, j as int),
        decreases n - j,
    {
        j = j + 1;
    }
    j
}

/// The characters of `s` between `from` and `to`, trimmed of surrounding
/// whitespace, as a string.
fn trimmed_string(s: &Vec<char>, from: usize, to: usize) -> (r: String)
    requires
        from <= to <= s@.len(),
    ensures
        r@ == trim_spaces(s@.subrange(from as int, to as int)),
{
    let mut a = from;
    let mut b = to;
    while a < b && (s[a] == ' ' || s[a] == '\t' || s[a] == '\n' || s[a] == '\r' || s[a] == '\x0b'
        || s[a] == '\x0c')
        invariant
            from <= a <= b <= to <= s@.len(),
            trim_spaces(s@.subrange(from as int, to as int)) == trim_spaces(
                s@.subrange(a as int, b as int),
            ),
        decreases b - a,
    {
        proof {
            assert(s@.subrange(a as int, b as int).drop_first() =~= s@.subrange(a + 1 as int, b as int));
        }
        a = a + 1;
    }
    while b > a && (s[b - 1] == ' ' || s[b - 1] == '\t' || s[b - 1] == '\n' || s[b - 1] == '\r'
        || s[b - 1] == '\x0b' || s[b - 1] == '\x0c')
        invariant
            from <= a <= b <= to <= s@.len(),
            a < b ==> !is_space_char(s@[a as int]),
            trim_spaces(s@.subrange(from as int, to as int)) == trim_spaces(
                s@.subrange(a as int, b as int),
            ),
        decreases b,
    {
        proof {
            let sub = s@.subrange(a as int, b as int);
            assert(sub.last() == s@[b - 1]);
            assert(sub[0] == s@[a as int]);
            assert(sub.drop_last() =~= s@.subrange(a as int, b - 1));
        }
        b = b - 1;
    }
    proof {
        let sub = s@.subrange(a as int, b as int);
        if sub.len() > 0 {
            assert(sub[0] == s@[a as int]);
            assert(sub.last() == s@[b - 1]);
            assert(trim_spaces(sub) == sub);
        } else {
            assert(trim_spaces(sub) == sub);
        }
    }
    let v = copy_range(s, a, b);
    string_from_chars(&v)
}

/// Try to read a value-form directive standing exactly at `i`: on a
/// match, the trimmed key, the value, and the position after the match.
fn try_var_match(s: &Vec<char>, i: usize) -> (r: Option<(String, String, usize)>)
    requires
        i <= s@.len(),
    ensures
        match r {
            Some(t) => var_match_at(s@, i as int) == Some(
                (s@.subrange(i + 13, scan_name(s@, i + 13)), t.1@, t.2 as int),
            ) && t.0@ == trim_spaces(s@.subrange(i + 13, scan_name(s@, i + 13))) && i < t.2
                <= s@.len(),
            None => var_match_at(s@, i as int) is None,
        },
{
    let n = s.len();
    if !chars_occur_at(s, "#inline_c_rs ", i) {
        return None;
    }
    proof {
        reveal_strlit("#inline_c_rs ");
        assert(i + 13 <= n);
    }
    let p = i + 13;
    let j = scan_name_exec(s, p);
    if j == p || j >= n {
        return None;
    }
    if s[j] != ':' {
        return None;
    }
    let k = scan_space_exec(s, j + 1);
    if k >= n {
        return None;
    }
    if s[k] != '"' {
        return None;
    }
    let m = scan_value_exec(s, k + 1);
    if m >= n || m == k + 1 {
        return None;
    }
    let key = trimmed_string(s, p, j);
    let value_v = copy_range(s, k + 1, m);
    let value = string_from_chars(&value_v);
    Some((key, value, m + 1))
}

/// Try to read an option-form directive standing exactly at `i`.
fn try_word_match(s: &Vec<char>, i: usize) -> (r: Option<(String, usize)>)
    requires
        i <= s@.len(),
    ensures
        match r {
            Some(t) => word_match_at(s@, i as int) == Some((t.0@, t.1 as int)) && i < t.1
                <= s@.len(),
            None => word_match_at(s@, i as int) is None,
        },
{
    let n = s.len();
    if !chars_occur_at(s, "#inline_c_rs ", i) {
        return None;
    }
    proof {
        reveal_strlit("#inline_c_rs ");
        assert(i + 13 <= n);
    }
    let p = i + 13;
    let w = scan_word_exec(s, p);
    if w == p {
        return None;
    }
    let word_v = copy_range(s, p, w);
    let word = string_from_chars(&word_v);
    Some((word, w))
}

/// A step over a position where no value-form directive starts keeps the
/// character and the remaining directives.
proof fn lemma_var_step_none(s: Seq<char>, i: int)
    requires
        0 <= i < s.len(),
        var_match_at(s, i) is None,
    ensures
        strip_vars_from(s, i) == seq![s[i]] + strip_vars_from(s, i + 1),
        var_directives_from(s, i) == var_directives_from(s, i + 1),
{
    lemma_find_var_bounds(s, i + 1);
    match find_var_from(s, i + 1) {
        Option::None => {
            assert(s.skip(i) =~= seq![s[i]] + s.skip(i + 1));
        },
        Option::Some((st, nm, v, end)) => {
            assert(s.subrange(i, st) =~= seq![s[i]] + s.subrange(i + 1, st));
        },
    }
}

/// A step over a position where no option-form directive starts keeps
/// the character and the remaining option words.
proof fn lemma_word_step_none(s: Seq<char>, i: int)
    requires
        0 <= i < s.len(),
        word_match_at(s, i) is None,
    ensures
        strip_words_from(s, i) == seq![s[i]] + strip_words_from(s, i + 1),
        word_directives_from(s, i) == word_directives_from(s, i + 1),
{
    lemma_find_word_bounds(s, i + 1);
    match find_word_from(s, i + 1) {
        Option::None => {
            assert(s.skip(i) =~= seq![s[i]] + s.skip(i + 1));
        },
        Option::Some((st, nm, end)) => {
            assert(s.subrange(i, st) =~= seq![s[i]] + s.subrange(i + 1, st));
        },
    }
}

/// The environment pairs that carry the `INLINE_C_RS_` namespace prefix,
/// with the prefix stripped, in their given order.
pub open spec fn env_pairs(env: Seq<(Seq<char>, Seq<char>)>) -> Seq<(Seq<char>, Seq<char>)>
    decreases env.len(),
{
    if env.len() == 0 {
        Seq::empty()
    } else {
        let rest = env_pairs(env.drop_first());
        if occurs_at(env[0].0, "INLINE_C_RS_"@, 0) {
            seq![(env[0].0.skip(12), env[0].1)] + rest
        } else {
            rest
        }
    }
}

/// Extract value-form directives from `program`, given a snapshot of the
/// process environment.
///
/// Returns the text with every value-form directive removed, and the
/// variable set holding first the environment pairs carrying the
/// `INLINE_C_RS_` prefix (prefix stripped), then the in-source
/// directives in match order — so an in-source directive overrides an
/// environment pair of the same key.
pub fn collect_environment_variables(program: &str, env: &Vec<(String, String)>) -> (r: (
    String,
    VarSet,
))
    ensures
        r.0@ == strip_vars_from(program@, 0),
        pairs_view(r.1.items@) == env_pairs(pairs_view(env@)) + var_directives_from(program@, 0),
{
    let mut vs = VarSet::new();
    let ghost all_env = pairs_view(env@);
    let mut e: usize = 0;
    proof {
        assert(all_env.skip(0) =~= all_env);
        assert(pairs_view(vs.items@) + env_pairs(all_env) =~= env_pairs(all_env));
    }
    while e < env.len()
        invariant
            e <= env@.len(),
            all_env == pairs_view(env@),
            env_pairs(all_env) == pairs_view(vs.items@) + env_pairs(all_env.skip(e as int)),
        decreases env@.len() - e,
    {
        proof {
            assert(all_env.skip(e as int)[0] == all_env[e as int]);
            assert(all_env.skip(e as int).drop_first() =~= all_env.skip(e + 1 as int));
        }
        let name_chars = str_to_chars(env[e].0.as_str());
        if chars_occur_at(&name_chars, "INLINE_C_RS_", 0) {
            proof {
                reveal_strlit("INLINE_C_RS_");
            }
            let key_v = copy_range(&name_chars, 12, name_chars.len());
            let key = string_from_chars(&key_v);
            let value = clone_string(&env[e].1);
            let ghost items_before = vs.items@;
            vs.insert(key, value);
            proof {
                assert(key_v@ =~= all_env[e as int].0.skip(12));
                assert(pairs_view(vs.items@) =~= pairs_view(items_before) + seq![
                    (all_env[e as int].0.skip(12), all_env[e as int].1),
                ]);
                assert(env_pairs(all_env) =~= pairs_view(vs.items@) + env_pairs(
                    all_env.skip(e + 1 as int),
                ));
            }
        } else {
            proof {
                reveal_strlit("INLINE_C_RS_");
            }
        }
        e = e + 1;
    }
    proof {
        assert(all_env.skip(env@.len() as int) =~= Seq::<(Seq<char>, Seq<char>)>::empty());
        assert(pairs_view(vs.items@) =~= env_pairs(all_env));
    }
    let ghost env_part = pairs_view(vs.items@);
    let s = str_to_chars(program);
    let n = s.len();
    let mut out: Vec<char> = Vec::new();
    let mut i: usize = 0;
    let ghost mut done: Seq<(Seq<char>, Seq<char>)> = Seq::empty();
    proof {
        assert(done + var_directives_from(s@, 0) =~= var_directives_from(s@, 0));
        assert(out@ + strip_vars_from(s@, 0) =~= strip_vars_from(s@, 0));
    }
    while i < n
        invariant
            i <= n,
            n == s@.len(),
            s@ == program@,
            strip_vars_from(s@, 0) == out@ + strip_vars_from(s@, i as int),
            var_directives_from(s@, 0) == done + var_directives_from(s@, i as int),
            pairs_view(vs.items@) == env_part + done,
        decreases n - i,
    {
        match try_var_match(&s, i) {
            Some((key, value, end)) => {
                proof {
                    assert(find_var_from(s@, i as int) == Some(
                        (
                            i as int,
                            s@.subrange(i + 13, scan_name(s@, i + 13)),
                            value@,
                            end as int,
                        ),
                    ));
                    assert(s@.subrange(i as int, i as int) =~= Seq::<char>::empty());
                    assert(s@.subrange(i as int, i as int) + strip_vars_from(s@, end as int)
                        =~= strip_vars_from(s@, end as int));
                }
                let ghost items_before = vs.items@;
                let ghost kk = key@;
                let ghost vv = value@;
                vs.insert(key, value);
                proof {
                    assert(pairs_view(vs.items@) =~= pairs_view(items_before) + seq![(kk, vv)]);
                    done = done + seq![(kk, vv)];
                    assert(var_directives_from(s@, i as int) =~= seq![(kk, vv)]
                        + var_directives_from(s@, end as int));
                    assert(done + var_directives_from(s@, end as int) =~= (done.drop_last()
                        + var_directives_from(s@, i as int)));
                    assert(pairs_view(vs.items@) =~= env_part + done);
                }
                i = end;
            },
            None => {
                proof {
                    lemma_var_step_none(s@, i as int);
                    assert(out@.push(s@[i as int]) =~= out@ + seq![s@[i as int]]);
                }
                out.push(s[i]);
                i = i + 1;
            },
        }
    }
    proof {
        assert(strip_vars_from(s@, n as int) =~= Seq::<char>::empty());
        assert(out@ + strip_vars_from(s@, n as int) =~= out@);
        assert(var_directives_from(s@, n as int) =~= Seq::<(Seq<char>, Seq<char>)>::empty());
        assert(done + var_directives_from(s@, n as int) =~= done);
    }
    (string_from_chars(&out), vs)
}

/// Extract option-form directives from `program`.
///
/// Returns the text with every option-form directive removed, and the
/// option words in match order.
pub fn collect_options(program: &str) -> (r: (String, Vec<String>))
    ensures
        r.0@ == strip_words_from(program@, 0),
        r.1@.map_values(|w: String| w@) == word_directives_from(program@, 0),
{
    let s = str_to_chars(program);
    let n = s.len();
    let mut out: Vec<char> = Vec::new();
    let mut words: Vec<String> = Vec::new();
    let mut i: usize = 0;
    proof {
        assert(words@.map_values(|w: String| w@) + word_directives_from(s@, 0)
            =~= word_directives_from(s@, 0));
        assert(out@ + strip_words_from(s@, 0) =~= strip_words_from(s@, 0));
    }
    while i < n
        invariant
            i <= n,
            n == s@.len(),
            s@ == program@,
            strip_words_from(s@, 0) == out@ + strip_words_from(s@, i as int),
            word_directives_from(s@, 0) == words@.map_values(|w: String| w@)
                + word_directives_from(s@, i as int),
        decreases n - i,
    {
        match try_word_match(&s, i) {
            Some((word, end)) => {
                proof {
                    assert(find_word_from(s@, i as int) == Some((i as int, word@, end as int)));
                    assert(s@.subrange(i as int, i as int) =~= Seq::<char>::empty());
                    assert(s@.subrange(i as int, i as int) + strip_words_from(s@, end as int)
                        =~= strip_words_from(s@, end as int));
                }
                let ghost ws_before = words@;
                let ghost ww = word@;
                words.push(word);
                proof {
                    assert(words@.map_values(|w: String| w@) =~= ws_before.map_values(
                        |w: String| w@,
                    ) + seq![ww]);
                    assert(word_directives_from(s@, i as int) =~= seq![ww]
                        + word_directives_from(s@, end as int));
                }
                i = end;
            },
            None => {
                proof {
                    lemma_word_step_none(s@, i as int);
                    assert(out@.push(s@[i as int]) =~= out@ + seq![s@[i as int]]);
                }
                out.push(s[i]);
                i = i + 1;
            },
        }
    }
    proof {
        assert(strip_words_from(s@, n as int) =~= Seq::<char>::empty());
        assert(out@ + strip_words_from(s@, n as int) =~= out@);
        assert(word_directives_from(s@, n as int) =~= Seq::<Seq<char>>::empty());
        assert(words@.map_values(|w: String| w@) + word_directives_from(s@, n as int)
            =~= words@.map_values(|w: String| w@));
    }
    (string_from_chars(&out), words)
}

/// When a key is defined by an in-source directive, the variable set
/// binds it to the directive's value, whatever the environment held:
/// the environment snapshots `env1` and `env2` may differ in every way,
/// the binding of `k` is the same.
pub proof fn lemma_source_directive_precedence(
    env1: Seq<(Seq<char>, Seq<char>)>,
    env2: Seq<(Seq<char>, Seq<char>)>,
    text: Seq<char>,
    k: Seq<char>,
)
    requires
        exists|l: int|
            0 <= l < var_directives_from(text, 0).len() && var_directives_from(text, 0)[l].0 == k,
    ensures
        assoc_map(env_pairs(env1) + var_directives_from(text, 0)).contains_key(k),
        assoc_map(env_pairs(env1) + var_directives_from(text, 0))[k] == assoc_map(
            env_pairs(env2) + var_directives_from(text, 0),
        )[k],
{
    crate::vars::lemma_source_overrides(
        env_pairs(env1),
        env_pairs(env2),
        var_directives_from(text, 0),
        k,
    );
}

/// A run of key characters ending at a stop position is scanned whole.
proof fn lemma_scan_name_run(s: Seq<char>, p: int, q: int)
    requires
        0 <= p <= q <= s.len(),
        forall|i: int| p <= i < q ==> is_name_char(#[trigger] s[i]),
        q == s.len() || !is_name_char(s[q]),
    ensures
        scan_name(s, p) == q,
    decreases q - p,
{
    if p < q {
        lemma_scan_name_run(s, p + 1, q);
    }
}

/// A run of whitespace ending at a stop position is scanned whole.
proof fn lemma_scan_space_run(s: Seq<char>, p: int, q: int)
    requires
        0 <= p <= q <= s.len(),
        forall|i: int| p <= i < q ==> is_space_char(#[trigger] s[i]),
        q == s.len() || !is_space_char(s[q]),
    ensures
        scan_space(s, p) == q,
    decreases q - p,
{
    if p < q {
        lemma_scan_space_run(s, p + 1, q);
    }
}

/// A run of non-quote characters ending at a quote is scanned whole.
proof fn lemma_scan_value_run(s: Seq<char>, p: int, q: int)
    requires
        0 <= p <= q <= s.len(),
        forall|i: int| p <= i < q ==> #[trigger] s[i] != '"',
        q == s.len() || s[q] == '"',
    ensures
        scan_value(s, p) == q,
    decreases q - p,
{
    if p < q {
        lemma_scan_value_run(s, p + 1, q);
    }
}

/// No directive can start where no marker character stands.
proof fn lemma_find_var_skip(s: Seq<char>, i: int, t: int)
    requires
        0 <= i <= t <= s.len(),
        forall|j: int| i <= j < t ==> #[trigger] s[j] != '#',
    ensures
        find_var_from(s, i) == find_var_from(s, t),
    decreases t - i,
{
    if i < t {
        reveal_strlit("#inline_c_rs ");
        assert(!occurs_at(s, "#inline_c_rs "@, i)) by {
            if occurs_at(s, "#inline_c_rs "@, i) {
                assert(s.subrange(i, i + 13)[0] == s[i]);
            }
        }
        lemma_find_var_skip(s, i + 1, t);
    }
}

/// Text free of the marker character holds no value-form directive.
proof fn lemma_find_var_none(s: Seq<char>, i: int)
    requires
        0 <= i <= s.len(),
        forall|j: int| i <= j < s.len() ==> #[trigger] s[j] != '#',
    ensures
        find_var_from(s, i) is None,
{
    lemma_find_var_skip(s, i, s.len() as int);
}

/// A key that starts and ends with non-whitespace is its own trim.
proof fn lemma_trim_fixed(s: Seq<char>)
    requires
        s.len() > 0,
        !is_space_char(s[0]),
        !is_space_char(s.last()),
    ensures
        trim_spaces(s) == s,
{
}

/// The text of one value-form directive: the marker, the key, the
/// colon, whitespace, and the double-quoted value.
pub open spec fn directive_text(key: Seq<char>, ws: Seq<char>, value: Seq<char>) -> Seq<char> {
    "#inline_c_rs "@ + key + ":"@ + ws + "\""@ + value + "\""@
}

/// A well-formed value directive standing anywhere in the text, with
/// marker-free surroundings, binds its key to its value and is removed
/// from the cleaned text byte for byte.
///
/// `a` and `b` are the text before and after the directive, free of the
/// marker character; the key holds key characters only and starts and
/// ends with non-whitespace; the value is non-empty and quote-free.
pub proof fn lemma_directive_extracted(
    a: Seq<char>,
    key: Seq<char>,
    ws: Seq<char>,
    value: Seq<char>,
    b: Seq<char>,
)
    requires
        forall|i: int| 0 <= i < a.len() ==> #[trigger] a[i] != '#',
        forall|i: int| 0 <= i < b.len() ==> #[trigger] b[i] != '#',
        key.len() > 0,
        forall|i: int| 0 <= i < key.len() ==> is_name_char(#[trigger] key[i]),
        !is_space_char(key[0]),
        !is_space_char(key.last()),
        forall|i: int| 0 <= i < ws.len() ==> is_space_char(#[trigger] ws[i]),
        value.len() > 0,
        forall|i: int| 0 <= i < value.len() ==> #[trigger] value[i] != '"',
    ensures
        var_directives_from(a + directive_text(key, ws, value) + b, 0) == seq![(key, value)],
        strip_vars_from(a + directive_text(key, ws, value) + b, 0) == a + b,
        forall|env: Seq<(Seq<char>, Seq<char>)>|
            {
                let vm = #[trigger] assoc_map(
                    env_pairs(env) + var_directives_from(a + directive_text(key, ws, value) + b, 0),
                );
                vm.contains_key(key) && vm[key] == value
            },
{
    reveal_strlit("#inline_c_rs ");
    reveal_strlit(":");
    reveal_strlit("\"");
    let s = a + directive_text(key, ws, value) + b;
    let al = a.len() as int;
    let p = al + 13;
    let j = p + key.len() as int;
    let k = j + 1 + ws.len() as int;
    let m = k + 1 + value.len() as int;
    let end = m + 1;
    assert(s.len() == end + b.len());
    // the characters of the directive, segment by segment
    assert forall|i: int| 0 <= i < 13 implies s[al + i] == "#inline_c_rs "@[i] by {
        assert(s[al + i] == directive_text(key, ws, value)[i]);
    }
    assert forall|i: int| 0 <= i < key.len() implies s[p + i] == key[i] by {
        assert(s[p + i] == directive_text(key, ws, value)[13 + i]);
    }
    assert(s[j] == ':') by {
        assert(s[j] == directive_text(key, ws, value)[13 + key.len() as int]);
    }
    assert forall|i: int| 0 <= i < ws.len() implies s[j + 1 + i] == ws[i] by {
        assert(s[j + 1 + i] == directive_text(key, ws, value)[14 + key.len() + i]);
    }
    assert(s[k] == '"') by {
        assert(s[k] == directive_text(key, ws, value)[14 + key.len() + ws.len() as int]);
    }
    assert forall|i: int| 0 <= i < value.len() implies s[k + 1 + i] == value[i] by {
        assert(s[k + 1 + i] == directive_text(key, ws, value)[15 + key.len() + ws.len() + i]);
    }
    assert(s[m] == '"') by {
        assert(s[m] == directive_text(key, ws, value)[15 + key.len() + ws.len() + value.len() as int]);
    }
    assert forall|i: int| 0 <= i < a.len() implies s[i] == a[i] by {}
    assert forall|i: int| 0 <= i < b.len() implies s[end + i] == b[i] by {}
    // the directive matches exactly at the end of `a`
    assert(occurs_at(s, "#inline_c_rs "@, al)) by {
        assert(s.subrange(al, al + 13) =~= "#inline_c_rs "@);
    }
    assert(scan_name(s, p) == j) by {
        lemma_scan_name_run(s, p, j);
    }
    assert(scan_space(s, j + 1) == k) by {
        lemma_scan_space_run(s, j + 1, k);
    }
    assert(scan_value(s, k + 1) == m) by {
        lemma_scan_value_run(s, k + 1, m);
    }
    assert(s.subrange(p, j) =~= key);
    assert(s.subrange(k + 1, m) =~= value);
    assert(var_match_at(s, al) == Some((key, value, end)));
    // it is the first match: `a` holds no marker character
    assert(find_var_from(s, 0) == find_var_from(s, al)) by {
        lemma_find_var_skip(s, 0, al);
    }
    assert(find_var_from(s, al) == Some((al, key, value, end)));
    // and the last: `b` holds no marker character either
    assert(find_var_from(s, end) is None) by {
        lemma_find_var_none(s, end);
    }
    assert(var_directives_from(s, end) =~= Seq::<(Seq<char>, Seq<char>)>::empty());
    lemma_trim_fixed(key);
    assert(var_directives_from(s, 0) =~= seq![(key, value)]);
    assert(strip_vars_from(s, end) == s.skip(end));
    assert(s.skip(end) =~= b);
    assert(s.subrange(0, al) =~= a);
    assert(strip_vars_from(s, 0) =~= a + b);
    // the resulting mapping binds the key to the value
    let vd = var_directives_from(s, 0);
    assert forall|env: Seq<(Seq<char>, Seq<char>)>|
        {
            let vm = #[trigger] assoc_map(env_pairs(env) + vd);
            vm.contains_key(key) && vm[key] == value
        } by {
        let combined = env_pairs(env) + vd;
        assert(combined.last() == (key, value));
        assert(combined.drop_last() =~= env_pairs(env));
        assert(assoc_map(combined) == assoc_map(env_pairs(env)).insert(key, value));
    }
}

} // verus!
