//! Reconstruction of compilable source text from a captured token tree.
//!
//! The capture loses whitespace and line structure, so reconstruction
//! re-inserts separators, statement newlines, and rebuilds preprocessor
//! directives (`#include`, and the line-oriented `#define` family) in a
//! form the target compiler's preprocessor accepts.
use vstd::prelude::*;
use crate::token::{Delim, Spacing, Token, TokenKind, token_size, tokens_size};
use crate::token::{lemma_token_size_pos, lemma_tokens_size_parts};
use crate::text::{push_str_chars, str_eq_chars, string_from_chars};

verus! {

/// Why reconstruction gave up on a token sequence.
#[derive(Clone, Copy, PartialEq, Eq, Structural, Debug)]
pub enum ReconstructError {
    /// `#include` stood at the end of the input, with nothing after it.
    MissingIncludeTarget,
    /// The token after `#include` was neither `<` nor a quoted literal.
    InvalidIncludeOpener,
    /// An angle-bracket include held a token that is not an identifier
    /// or punctuation, or was never closed by `>`.
    InvalidIncludeToken,
    /// A `#define`-family directive needs the source line of each token,
    /// and the capture did not keep it.
    MissingLineInfo,
}

/// The characters that open a delimited group.
pub open spec fn open_delim(d: Delim) -> Seq<char> {
    match d {
        Delim::Paren => seq!['('],
        Delim::Brace => seq!['{', '\n'],
        Delim::Bracket => seq!['['],
        Delim::Bare => Seq::empty(),
    }
}

/// The characters that close a delimited group.
pub open spec fn close_delim(d: Delim) -> Seq<char> {
    match d {
        Delim::Paren => seq![')'],
        Delim::Brace => seq!['\n', '}', '\n'],
        Delim::Bracket => seq![']'],
        Delim::Bare => Seq::empty(),
    }
}

/// The plain display text of a token sequence: tokens separated by one
/// space, group contents wrapped in their delimiters. This is how the
/// tail of a `#define`-family directive line is rendered.
pub open spec fn tokens_text(ts: Seq<Token>) -> Seq<char>
    decreases ts,
{
    if ts.len() == 0 {
        Seq::empty()
    } else {
        let head = match ts[0].kind {
            TokenKind::Ident(s) => s@,
            TokenKind::Punct(c, _) => seq![c],
            TokenKind::Literal(s) => s@,
            TokenKind::Group(d, inner) => open_delim(d) + tokens_text(inner@) + close_delim(d),
        };
        if ts.len() == 1 {
            head
        } else {
            head + seq![' '] + tokens_text(ts.drop_first())
        }
    }
}

/// The plain display text of one token.
pub open spec fn token_text(t: Token) -> Seq<char> {
    match t.kind {
        TokenKind::Ident(s) => s@,
        TokenKind::Punct(c, _) => seq![c],
        TokenKind::Literal(s) => s@,
        TokenKind::Group(d, inner) => open_delim(d) + tokens_text(inner@) + close_delim(d),
    }
}

/// Scan the body of `#include <...>`: identifiers and punctuation are
/// emitted without separators until the closing `>`. Returns the emitted
/// text and how many tokens were consumed, the closing `>` included.
pub open spec fn scan_angle(ts: Seq<Token>) -> Result<(Seq<char>, nat), ReconstructError>
    decreases ts.len(),
{
    if ts.len() == 0 {
        Err(ReconstructError::InvalidIncludeToken)
    } else {
        match ts[0].kind {
            TokenKind::Punct(c, _) => if c == '>' {
                Ok((Seq::empty(), 1))
            } else {
                match scan_angle(ts.drop_first()) {
                    Ok((t, n)) => Ok((seq![c] + t, (n + 1) as nat)),
                    Err(e) => Err(e),
                }
            },
            TokenKind::Ident(s) => match scan_angle(ts.drop_first()) {
                Ok((t, n)) => Ok((s@ + t, (n + 1) as nat)),
                Err(e) => Err(e),
            },
            _ => Err(ReconstructError::InvalidIncludeToken),
        }
    }
}

/// Scan the tail of a `#define`-family directive: every token that
/// starts on `line` is emitted, followed by a space; a token from a
/// later line ends the directive with a newline and is not consumed.
/// Returns the emitted text and how many tokens were consumed.
pub open spec fn scan_line(ts: Seq<Token>, line: u64) -> Result<(Seq<char>, nat), ReconstructError>
    decreases ts.len(),
{
    if ts.len() == 0 {
        Ok((Seq::empty(), 0))
    } else {
        match ts[0].line {
            Option::None => Err(ReconstructError::MissingLineInfo),
            Option::Some(l) => if l == line {
                match scan_line(ts.drop_first(), line) {
                    Ok((t, n)) => Ok((token_text(ts[0]) + seq![' '] + t, (n + 1) as nat)),
                    Err(e) => Err(e),
                }
            } else {
                Ok((seq!['\n'], 0))
            },
        }
    }
}

/// Prefix `p` onto the text of `r`, keeping an error as it is.
pub open spec fn prepend(p: Seq<char>, r: Result<Seq<char>, ReconstructError>) -> Result<
    Seq<char>,
    ReconstructError,
> {
    match r {
        Ok(s) => Ok(p + s),
        Err(e) => Err(e),
    }
}

/// Whether a token is the identifier `name`.
pub open spec fn is_ident_named(t: Token, name: Seq<char>) -> bool {
    match t.kind {
        TokenKind::Ident(s) => s@ == name,
        _ => false,
    }
}

/// Whether a token is one of the line-oriented directive keywords.
pub open spec fn is_define_family(t: Token) -> bool {
    ||| is_ident_named(t, "define"@)
    ||| is_ident_named(t, "ifdef"@)
    ||| is_ident_named(t, "else"@)
    ||| is_ident_named(t, "elif"@)
    ||| is_ident_named(t, "endif"@)
}

pub proof fn lemma_scan_angle_bounds(ts: Seq<Token>)
    ensures
        scan_angle(ts) matches Ok((t, n)) ==> 1 <= n <= ts.len(),
    decreases ts.len(),
{
    if ts.len() > 0 {
        lemma_scan_angle_bounds(ts.drop_first());
    }
}

pub proof fn lemma_scan_line_bounds(ts: Seq<Token>, line: u64)
    ensures
        scan_line(ts, line) matches Ok((t, n)) ==> n <= ts.len(),
    decreases ts.len(),
{
    if ts.len() > 0 {
        lemma_scan_line_bounds(ts.drop_first(), line);
    }
}

/// The reconstructed source text of a token sequence, or the error that
/// makes the sequence unacceptable. This is the reference meaning of
/// reconstruction; the executable function returns exactly this.
pub open spec fn recon(ts: Seq<Token>) -> Result<Seq<char>, ReconstructError>
    decreases ts,
    via recon_decreases
{
    if ts.len() == 0 {
        Ok(Seq::empty())
    } else {
        match ts[0].kind {
            TokenKind::Ident(s) => prepend(s@ + seq![' '], recon(ts.drop_first())),
            TokenKind::Literal(s) => prepend(
                if s@ == "\"C\""@ {
                    s@ + seq![' ']
                } else {
                    s@
                },
                recon(ts.drop_first()),
            ),
            TokenKind::Group(d, inner) => match recon(inner@) {
                Ok(g) => prepend(
                    open_delim(d) + g + close_delim(d),
                    recon(ts.drop_first()),
                ),
                Err(e) => Err(e),
            },
            TokenKind::Punct(c, sp) => if c == ';' {
                prepend(seq![';', '\n'], recon(ts.drop_first()))
            } else if c == '#' {
                if ts.len() >= 2 && is_ident_named(ts[1], "include"@) {
                    if ts.len() < 3 {
                        Err(ReconstructError::MissingIncludeTarget)
                    } else {
                        match ts[2].kind {
                            TokenKind::Punct(c2, _) => if c2 == '<' {
                                match scan_angle(ts.skip(3)) {
                                    Ok((body, n)) => prepend(
                                        "\n#include <"@ + body + ">\n"@,
                                        recon(ts.skip(3 + n as int)),
                                    ),
                                    Err(e) => Err(e),
                                }
                            } else {
                                Err(ReconstructError::InvalidIncludeOpener)
                            },
                            TokenKind::Literal(s) => prepend(
                                "\n#include "@ + s@ + seq!['\n'],
                                recon(ts.skip(3)),
                            ),
                            _ => Err(ReconstructError::InvalidIncludeOpener),
                        }
                    }
                } else if ts.len() >= 2 && is_define_family(ts[1]) {
                    match ts[1].line {
                        Option::None => Err(ReconstructError::MissingLineInfo),
                        Option::Some(l) => match scan_line(ts.skip(2), l) {
                            Ok((body, n)) => prepend(
                                seq!['\n', '#'] + token_text(ts[1]) + seq![' '] + body,
                                recon(ts.skip(2 + n as int)),
                            ),
                            Err(e) => Err(e),
                        },
                    }
                } else {
                    prepend(seq!['\n', '#'], recon(ts.drop_first()))
                }
            } else {
                prepend(
                    if sp == Spacing::Alone {
                        seq![c, ' ']
                    } else {
                        seq![c]
                    },
                    recon(ts.drop_first()),
                )
            },
        }
    }
}

/// Dropping `k` leading tokens drops at least `k` from the size.
pub proof fn lemma_tokens_size_skip(ts: Seq<Token>, k: int)
    requires
        0 <= k <= ts.len(),
    ensures
        tokens_size(ts.skip(k)) + k <= tokens_size(ts),
    decreases k,
{
    if k == 0 {
        assert(ts.skip(0) =~= ts);
    } else {
        assert(ts.skip(k) =~= ts.drop_first().skip(k - 1));
        lemma_tokens_size_skip(ts.drop_first(), k - 1);
        lemma_tokens_size_parts(ts);
        lemma_token_size_pos(ts[0]);
    }
}

#[via_fn]
proof fn recon_decreases(ts: Seq<Token>) {
    if ts.len() >= 3 {
        lemma_scan_angle_bounds(ts.skip(3));
        if let Ok((body, n)) = scan_angle(ts.skip(3)) {
            assert(3 + n <= ts.len());
            assert(decreases_to!(ts => ts.skip(3 + n as int)));
        }
    }
    if ts.len() >= 2 {
        if let Option::Some(l) = ts[1].line {
            lemma_scan_line_bounds(ts.skip(2), l);
            if let Ok((body, n)) = scan_line(ts.skip(2), l) {
                assert(2 + n <= ts.len());
                assert(decreases_to!(ts => ts.skip(2 + n as int)));
            }
        }
    }
}

/// The display text of the tokens from position `i` on.
fn render_tokens_at(ts: &Vec<Token>, i: usize) -> (r: Vec<char>)
    requires
        i <= ts@.len(),
    ensures
        r@ == tokens_text(ts@.skip(i as int)),
    decreases tokens_size(ts@.skip(i as int)), 1nat,
{
    let ghost suf = ts@.skip(i as int);
    if i == ts.len() {
        let r: Vec<char> = Vec::new();
        assert(suf =~= Seq::<Token>::empty());
        r
    } else {
        proof {
            assert(suf[0] == ts@[i as int]);
            lemma_tokens_size_parts(suf);
        }
        let mut out = render_token(&ts[i]);
        if i + 1 < ts.len() {
            out.push(' ');
            proof {
                assert(suf.drop_first() =~= ts@.skip(i + 1 as int));
                lemma_token_size_pos(suf[0]);
            }
            let mut rest = render_tokens_at(ts, i + 1);
            out.append(&mut rest);
            assert(out@ =~= tokens_text(suf));
        } else {
            assert(out@ =~= tokens_text(suf));
        }
        out
    }
}

/// The display text of one token.
fn render_token(t: &Token) -> (r: Vec<char>)
    ensures
        r@ == token_text(*t),
    decreases token_size(*t), 0nat,
{
    match &t.kind {
        TokenKind::Ident(s) => crate::text::str_to_chars(s.as_str()),
        TokenKind::Literal(s) => crate::text::str_to_chars(s.as_str()),
        TokenKind::Punct(c, _) => {
            let mut out: Vec<char> = Vec::new();
            out.push(*c);
            assert(out@ =~= token_text(*t));
            out
        },
        TokenKind::Group(d, inner) => {
            let mut out: Vec<char> = Vec::new();
            match d {
                Delim::Paren => out.push('('),
                Delim::Brace => {
                    out.push('{');
                    out.push('\n');
                },
                Delim::Bracket => out.push('['),
                Delim::Bare => (),
            }
            assert(out@ =~= open_delim(*d));
            proof {
                assert(inner@.skip(0) =~= inner@);
            }
            let mut mid = render_tokens_at(inner, 0);
            out.append(&mut mid);
            match d {
                Delim::Paren => out.push(')'),
                Delim::Brace => {
                    out.push('\n');
                    out.push('}');
                    out.push('\n');
                },
                Delim::Bracket => out.push(']'),
                Delim::Bare => (),
            }
            assert(out@ =~= token_text(*t));
            out
        },
    }
}

/// Whether the token is one of the line-oriented directive keywords.
fn token_is_define_family(t: &Token) -> (r: bool)
    ensures
        r == is_define_family(*t),
{
    match &t.kind {
        TokenKind::Ident(s) => {
            str_eq_chars(s.as_str(), "define") || str_eq_chars(s.as_str(), "ifdef")
                || str_eq_chars(s.as_str(), "else") || str_eq_chars(s.as_str(), "elif")
                || str_eq_chars(s.as_str(), "endif")
        },
        _ => false,
    }
}

/// Scan an angle-bracket include body starting at position `i`.
fn scan_angle_at(ts: &Vec<Token>, i: usize) -> (r: Result<(Vec<char>, usize), ReconstructError>)
    requires
        i <= ts@.len(),
    ensures
        match r {
            Ok(p) => scan_angle(ts@.skip(i as int)) == Ok::<(Seq<char>, nat), ReconstructError>(
                (p.0@, p.1 as nat),
            ) && i + p.1 <= ts@.len(),
            Err(e) => scan_angle(ts@.skip(i as int)) == Err::<(Seq<char>, nat), ReconstructError>(
                e,
            ),
        },
    decreases ts@.len() - i,
{
    let ghost suf = ts@.skip(i as int);
    if i == ts.len() {
        assert(suf =~= Seq::<Token>::empty());
        return Err(ReconstructError::InvalidIncludeToken);
    }
    proof {
        assert(suf[0] == ts@[i as int]);
        assert(suf.drop_first() =~= ts@.skip(i + 1 as int));
    }
    match &ts[i].kind {
        TokenKind::Punct(c, _) => {
            if *c == '>' {
                let out: Vec<char> = Vec::new();
                assert(out@ =~= Seq::<char>::empty());
                Ok((out, 1))
            } else {
                match scan_angle_at(ts, i + 1) {
                    Ok((mut v2, n2)) => {
                        let mut out: Vec<char> = Vec::new();
                        out.push(*c);
                        let ghost v2v = v2@;
                        out.append(&mut v2);
                        assert(out@ =~= seq![ts@[i as int].kind->Punct_0] + v2v);
                        Ok((out, n2 + 1))
                    },
                    Err(e) => Err(e),
                }
            }
        },
        TokenKind::Ident(s) => {
            match scan_angle_at(ts, i + 1) {
                Ok((mut v2, n2)) => {
                    let mut out = crate::text::str_to_chars(s.as_str());
                    let ghost v2v = v2@;
                    out.append(&mut v2);
                    assert(out@ =~= ts@[i as int].kind->Ident_0@ + v2v);
                    Ok((out, n2 + 1))
                },
                Err(e) => Err(e),
            }
        },
        _ => Err(ReconstructError::InvalidIncludeToken),
    }
}

/// Scan the tail of a `#define`-family directive starting at position `i`.
fn scan_line_at(ts: &Vec<Token>, i: usize, line: u64) -> (r: Result<
    (Vec<char>, usize),
    ReconstructError,
>)
    requires
        i <= ts@.len(),
    ensures
        match r {
            Ok(p) => scan_line(ts@.skip(i as int), line) == Ok::<
                (Seq<char>, nat),
                ReconstructError,
            >((p.0@, p.1 as nat)) && i + p.1 <= ts@.len(),
            Err(e) => scan_line(ts@.skip(i as int), line) == Err::<
                (Seq<char>, nat),
                ReconstructError,
            >(e),
        },
    decreases ts@.len() - i,
{
    let ghost suf = ts@.skip(i as int);
    if i == ts.len() {
        let out: Vec<char> = Vec::new();
        assert(suf =~= Seq::<Token>::empty());
        assert(out@ =~= Seq::<char>::empty());
        return Ok((out, 0));
    }
    proof {
        assert(suf[0] == ts@[i as int]);
        assert(suf.drop_first() =~= ts@.skip(i + 1 as int));
    }
    match ts[i].line {
        Option::None => Err(ReconstructError::MissingLineInfo),
        Option::Some(l) => {
            if l == line {
                match scan_line_at(ts, i + 1, line) {
                    Ok((mut v2, n2)) => {
                        let mut out = render_token(&ts[i]);
                        out.push(' ');
                        let ghost v2v = v2@;
                        out.append(&mut v2);
                        assert(out@ =~= token_text(ts@[i as int]) + seq![' '] + v2v);
                        Ok((out, n2 + 1))
                    },
                    Err(e) => Err(e),
                }
            } else {
                let mut out: Vec<char> = Vec::new();
                out.push('\n');
                assert(out@ =~= seq!['\n']);
                Ok((out, 0))
            }
        },
    }
}

/// Reconstruct the text of the tokens from position `i` on.
fn recon_at(ts: &Vec<Token>, i: usize) -> (r: Result<Vec<char>, ReconstructError>)
    requires
        i <= ts@.len(),
    ensures
        match r {
            Ok(v) => recon(ts@.skip(i as int)) == Ok::<Seq<char>, ReconstructError>(v@),
            Err(e) => recon(ts@.skip(i as int)) == Err::<Seq<char>, ReconstructError>(e),
        },
    decreases tokens_size(ts@.skip(i as int)),
{
    let ghost suf = ts@.skip(i as int);
    if i == ts.len() {
        let out: Vec<char> = Vec::new();
        assert(suf =~= Seq::<Token>::empty());
        assert(out@ =~= Seq::<char>::empty());
        return Ok(out);
    }
    proof {
        assert(suf[0] == ts@[i as int]);
        assert(suf.drop_first() =~= ts@.skip(i + 1 as int));
        lemma_tokens_size_parts(suf);
        lemma_token_size_pos(suf[0]);
    }
    match &ts[i].kind {
        TokenKind::Ident(s) => {
            let mut out = crate::text::str_to_chars(s.as_str());
            out.push(' ');
            match recon_at(ts, i + 1) {
                Ok(mut rest) => {
                    let ghost rv = rest@;
                    out.append(&mut rest);
                    assert(out@ =~= (s@ + seq![' ']) + rv);
                    Ok(out)
                },
                Err(e) => Err(e),
            }
        },
        TokenKind::Literal(s) => {
            let mut out = crate::text::str_to_chars(s.as_str());
            if str_eq_chars(s.as_str(), "\"C\"") {
                out.push(' ');
            }
            proof {
                if s@ == "\"C\""@ {
                    assert(out@ =~= s@ + seq![' ']);
                } else {
                    assert(out@ =~= s@);
                }
            }
            match recon_at(ts, i + 1) {
                Ok(mut rest) => {
                    let ghost chunk = out@;
                    let ghost rv = rest@;
                    out.append(&mut rest);
                    assert(out@ =~= chunk + rv);
                    Ok(out)
                },
                Err(e) => Err(e),
            }
        },
        TokenKind::Group(d, inner) => {
            proof {
                assert(inner@.skip(0) =~= inner@);
            }
            match recon_at(inner, 0) {
                Ok(mut mid) => {
                    let mut out: Vec<char> = Vec::new();
                    match d {
                        Delim::Paren => out.push('('),
                        Delim::Brace => {
                            out.push('{');
                            out.push('\n');
                        },
                        Delim::Bracket => out.push('['),
                        Delim::Bare => (),
                    }
                    assert(out@ =~= open_delim(*d));
                    out.append(&mut mid);
                    match d {
                        Delim::Paren => out.push(')'),
                        Delim::Brace => {
                            out.push('\n');
                            out.push('}');
                            out.push('\n');
                        },
                        Delim::Bracket => out.push(']'),
                        Delim::Bare => (),
                    }
                    let ghost chunk = out@;
                    match recon_at(ts, i + 1) {
                        Ok(mut rest) => {
                            let ghost rv = rest@;
                            out.append(&mut rest);
                            assert(out@ =~= chunk + rv);
                            assert(chunk =~= open_delim(suf[0].kind->Group_0) + recon(
                                suf[0].kind->Group_1@,
                            )->Ok_0 + close_delim(suf[0].kind->Group_0));
                            Ok(out)
                        },
                        Err(e) => Err(e),
                    }
                },
                Err(e) => Err(e),
            }
        },
        TokenKind::Punct(c, sp) => {
            if *c == ';' {
                let mut out: Vec<char> = Vec::new();
                out.push(';');
                out.push('\n');
                match recon_at(ts, i + 1) {
                    Ok(mut rest) => {
                        let ghost rv = rest@;
                        out.append(&mut rest);
                        assert(out@ =~= seq![';', '\n'] + rv);
                        Ok(out)
                    },
                    Err(e) => Err(e),
                }
            } else if *c == '#' {
                recon_hash_at(ts, i)
            } else {
                let mut out: Vec<char> = Vec::new();
                out.push(*c);
                let ghost chunk_one = out@;
                assert(chunk_one =~= seq![suf[0].kind->Punct_0]);
                if *sp == Spacing::Alone {
                    out.push(' ');
                }
                let ghost chunk = out@;
                assert(suf[0].kind->Punct_1 == Spacing::Alone ==> chunk =~= seq![
                    suf[0].kind->Punct_0,
                    ' ',
                ]);
                match recon_at(ts, i + 1) {
                    Ok(mut rest) => {
                        let ghost rv = rest@;
                        out.append(&mut rest);
                        assert(out@ =~= chunk + rv);
                        Ok(out)
                    },
                    Err(e) => Err(e),
                }
            }
        },
    }
}

/// Reconstruct a `#`-led directive standing at position `i`.
#[verifier::rlimit(60)]
fn recon_hash_at(ts: &Vec<Token>, i: usize) -> (r: Result<Vec<char>, ReconstructError>)
    requires
        i < ts@.len(),
        ts@[i as int].kind matches TokenKind::Punct(c, _) && c == '#',
    ensures
        match r {
            Ok(v) => recon(ts@.skip(i as int)) == Ok::<Seq<char>, ReconstructError>(v@),
            Err(e) => recon(ts@.skip(i as int)) == Err::<Seq<char>, ReconstructError>(e),
        },
    decreases tokens_size(ts@.skip(i as int)), 0nat,
{
    let ghost suf = ts@.skip(i as int);
    let n_all = ts.len();
    proof {
        assert(suf[0] == ts@[i as int]);
        assert(suf.drop_first() =~= ts@.skip(i + 1 as int));
        lemma_tokens_size_parts(suf);
        lemma_token_size_pos(suf[0]);
        if 1 < suf.len() {
            assert(suf[1] == ts@[i + 1 as int]);
        }
    }
    let is_include = if i + 1 < n_all {
        match &ts[i + 1].kind {
            TokenKind::Ident(s2) => str_eq_chars(s2.as_str(), "include"),
            _ => false,
        }
    } else {
        false
    };
    if is_include {
        if i + 2 >= n_all {
            assert(suf.len() < 3);
            return Err(ReconstructError::MissingIncludeTarget);
        }
        proof {
            assert(suf[2] == ts@[i + 2 as int]);
            assert(suf.skip(3) =~= ts@.skip(i + 3 as int));
        }
        match &ts[i + 2].kind {
            TokenKind::Punct(c2, _) => {
                if *c2 == '<' {
                    match scan_angle_at(ts, i + 3) {
                        Ok((mut body, n)) => {
                            proof {
                                lemma_scan_angle_bounds(suf.skip(3));
                                assert(suf.skip(3 + n as int) =~= ts@.skip(i + 3 + n as int));
                                lemma_tokens_size_skip(suf, 3 + n as int);
                            }
                            let mut out: Vec<char> = Vec::new();
                            push_str_chars(&mut out, "\n#include <");
                            out.append(&mut body);
                            push_str_chars(&mut out, ">\n");
                            let ghost chunk = out@;
                            assert(chunk =~= "\n#include <"@ + scan_angle(suf.skip(3))->Ok_0.0
                                + ">\n"@);
                            match recon_at(ts, i + 3 + n) {
                                Ok(mut rest) => {
                                    let ghost rv = rest@;
                                    out.append(&mut rest);
                                    assert(out@ =~= chunk + rv);
                                    Ok(out)
                                },
                                Err(e) => Err(e),
                            }
                        },
                        Err(e) => Err(e),
                    }
                } else {
                    Err(ReconstructError::InvalidIncludeOpener)
                }
            },
            TokenKind::Literal(s3) => {
                proof {
                    lemma_tokens_size_skip(suf, 3);
                }
                let mut out: Vec<char> = Vec::new();
                push_str_chars(&mut out, "\n#include ");
                push_str_chars(&mut out, s3.as_str());
                out.push('\n');
                let ghost chunk = out@;
                assert(chunk =~= "\n#include "@ + suf[2].kind->Literal_0@ + seq!['\n']);
                match recon_at(ts, i + 3) {
                    Ok(mut rest) => {
                        let ghost rv = rest@;
                        out.append(&mut rest);
                        assert(out@ =~= chunk + rv);
                        Ok(out)
                    },
                    Err(e) => Err(e),
                }
            },
            _ => Err(ReconstructError::InvalidIncludeOpener),
        }
    } else {
        let is_define = if i + 1 < n_all {
            token_is_define_family(&ts[i + 1])
        } else {
            false
        };
        if is_define {
            proof {
                assert(suf.skip(2) =~= ts@.skip(i + 2 as int));
            }
            match ts[i + 1].line {
                Option::None => Err(ReconstructError::MissingLineInfo),
                Option::Some(l) => {
                    match scan_line_at(ts, i + 2, l) {
                        Ok((mut body, n)) => {
                            proof {
                                lemma_scan_line_bounds(suf.skip(2), l);
                                assert(suf.skip(2 + n as int) =~= ts@.skip(i + 2 + n as int));
                                lemma_tokens_size_skip(suf, 2 + n as int);
                            }
                            let mut out: Vec<char> = Vec::new();
                            out.push('\n');
                            out.push('#');
                            let mut kw = render_token(&ts[i + 1]);
                            out.append(&mut kw);
                            out.push(' ');
                            out.append(&mut body);
                            let ghost chunk = out@;
                            assert(chunk =~= seq!['\n', '#'] + token_text(suf[1]) + seq![' ']
                                + scan_line(suf.skip(2), l)->Ok_0.0);
                            match recon_at(ts, i + 2 + n) {
                                Ok(mut rest) => {
                                    let ghost rv = rest@;
                                    out.append(&mut rest);
                                    assert(out@ =~= chunk + rv);
                                    Ok(out)
                                },
                                Err(e) => Err(e),
                            }
                        },
                        Err(e) => Err(e),
                    }
                },
            }
        } else {
            let mut out: Vec<char> = Vec::new();
            out.push('\n');
            out.push('#');
            let ghost chunk = out@;
            assert(chunk =~= seq!['\n', '#']);
            match recon_at(ts, i + 1) {
                Ok(mut rest) => {
                    let ghost rv = rest@;
                    out.append(&mut rest);
                    assert(out@ =~= chunk + rv);
                    Ok(out)
                },
                Err(e) => Err(e),
            }
        }
    }
}

/// Whether no token of the tree, however deeply nested, is the
/// directive-introducing punctuation character.
pub open spec fn hash_free(ts: Seq<Token>) -> bool
    decreases ts,
{
    if ts.len() == 0 {
        true
    } else {
        (match ts[0].kind {
            TokenKind::Punct(c, _) => c != '#',
            TokenKind::Group(_, inner) => hash_free(inner@),
            _ => true,
        }) && hash_free(ts.drop_first())
    }
}

/// A token sequence free of the directive-introducing character is
/// always reconstructed: only directive forms can be malformed, so
/// reconstruction of such a sequence never fails.
pub proof fn lemma_hash_free_reconstructs(ts: Seq<Token>)
    requires
        hash_free(ts),
    ensures
        recon(ts) is Ok,
    decreases ts,
{
    if ts.len() > 0 {
        match ts[0].kind {
            TokenKind::Group(d, inner) => {
                lemma_hash_free_reconstructs(inner@);
                lemma_hash_free_reconstructs(ts.drop_first());
            },
            _ => {
                lemma_hash_free_reconstructs(ts.drop_first());
            },
        }
    }
}

/// Reconstruct source text from a captured token sequence.
///
/// On success the text is exactly `recon(tokens@)`; reconstruction is
/// refused, with the reason, exactly when `recon` refuses the sequence.
pub fn reconstruct(tokens: &Vec<Token>) -> (r: Result<String, ReconstructError>)
    ensures
        r matches Ok(s) ==> recon(tokens@) == Ok::<Seq<char>, ReconstructError>(s@),
        r matches Err(e) ==> recon(tokens@) == Err::<Seq<char>, ReconstructError>(e),
{
    proof {
        assert(tokens@.skip(0) =~= tokens@);
    }
    match recon_at(tokens, 0) {
        Ok(v) => Ok(string_from_chars(&v)),
        Err(e) => Err(e),
    }
}

} // verus!
