//! The captured token tree that reconstruction works on.
use vstd::prelude::*;

verus! {

/// How a punctuation character relates to the token that follows it:
/// `Joint` means it is glued to the next token (as in `->` or `::`),
/// `Alone` means it stands on its own.
#[derive(Clone, Copy, PartialEq, Eq, Structural)]
pub enum Spacing {
    Alone,
    Joint,
}

/// The bracket kind that surrounds a token group. `Bare` is a group
/// with no visible delimiter.
#[derive(Clone, Copy, PartialEq, Eq, Structural)]
pub enum Delim {
    Paren,
    Brace,
    Bracket,
    Bare,
}

/// One captured token; groups nest, so the type is a tree.
pub enum TokenKind {
    Ident(String),
    Punct(char, Spacing),
    Literal(String),
    Group(Delim, Vec<Token>),
}

/// A token together with the source line it started on, when the
/// capture kept that information.
pub struct Token {
    pub kind: TokenKind,
    pub line: Option<u64>,
}

/// Number of tokens in a sequence, counting the tokens inside groups.
pub open spec fn tokens_size(ts: Seq<Token>) -> nat
    decreases ts,
{
    if ts.len() == 0 {
        0
    } else {
        (match ts[0].kind {
            TokenKind::Group(_, inner) => 1 + tokens_size(inner@),
            _ => 1,
        }) + tokens_size(ts.drop_first())
    }
}

/// Number of tokens in one token, counting the tokens inside groups.
pub open spec fn token_size(t: Token) -> nat {
    match t.kind {
        TokenKind::Group(_, inner) => 1 + tokens_size(inner@),
        _ => 1,
    }
}

pub proof fn lemma_tokens_size_parts(ts: Seq<Token>)
    requires
        ts.len() > 0,
    ensures
        tokens_size(ts) == token_size(ts[0]) + tokens_size(ts.drop_first()),
{
}

/// Every token contributes at least one to the size.
pub proof fn lemma_token_size_pos(t: Token)
    ensures
        token_size(t) >= 1,
{
}

} // verus!
