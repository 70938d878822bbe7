use inline_c::reconstruct::{reconstruct, ReconstructError};
use inline_c::token::{Delim, Spacing, Token, TokenKind};

fn ident(text: &str) -> Token {
    Token { kind: TokenKind::Ident(text.to_string()), line: None }
}

fn ident_at(text: &str, line: u64) -> Token {
    Token { kind: TokenKind::Ident(text.to_string()), line: Some(line) }
}

fn punct(c: char, spacing: Spacing) -> Token {
    Token { kind: TokenKind::Punct(c, spacing), line: None }
}

fn literal(text: &str) -> Token {
    Token { kind: TokenKind::Literal(text.to_string()), line: None }
}

fn literal_at(text: &str, line: u64) -> Token {
    Token { kind: TokenKind::Literal(text.to_string()), line: Some(line) }
}

fn group(delim: Delim, inner: Vec<Token>) -> Token {
    Token { kind: TokenKind::Group(delim, inner), line: None }
}

#[test]
fn idents_and_semicolons() {
    let tokens = vec![ident("int"), ident("x"), punct(';', Spacing::Alone)];
    assert_eq!(reconstruct(&tokens).unwrap(), "int x ;\n");
}

#[test]
fn joint_punctuation_stays_glued() {
    let tokens = vec![
        ident("p"),
        punct('-', Spacing::Joint),
        punct('>', Spacing::Alone),
        ident("q"),
    ];
    assert_eq!(reconstruct(&tokens).unwrap(), "p -> q ");
}

#[test]
fn alone_punctuation_gets_a_space() {
    let tokens = vec![ident("x"), punct('+', Spacing::Alone), ident("y")];
    assert_eq!(reconstruct(&tokens).unwrap(), "x + y ");
}

#[test]
fn angle_include_normalizes_spacing() {
    // the tokens of `#include <vector>`, spacing on the brackets varied
    let tokens = vec![
        punct('#', Spacing::Alone),
        ident("include"),
        punct('<', Spacing::Joint),
        ident("vector"),
        punct('>', Spacing::Alone),
    ];
    assert_eq!(reconstruct(&tokens).unwrap(), "\n#include <vector>\n");

    let tokens2 = vec![
        punct('#', Spacing::Joint),
        ident("include"),
        punct('<', Spacing::Alone),
        ident("vector"),
        punct('>', Spacing::Joint),
    ];
    assert_eq!(reconstruct(&tokens2).unwrap(), "\n#include <vector>\n");
}

#[test]
fn angle_include_with_dotted_name() {
    let tokens = vec![
        punct('#', Spacing::Alone),
        ident("include"),
        punct('<', Spacing::Alone),
        ident("stdio"),
        punct('.', Spacing::Joint),
        ident("h"),
        punct('>', Spacing::Alone),
    ];
    assert_eq!(reconstruct(&tokens).unwrap(), "\n#include <stdio.h>\n");
}

#[test]
fn quoted_include() {
    let tokens = vec![
        punct('#', Spacing::Alone),
        ident("include"),
        literal("\"stdio.h\""),
    ];
    assert_eq!(reconstruct(&tokens).unwrap(), "\n#include \"stdio.h\"\n");
}

#[test]
fn include_at_end_is_refused() {
    let tokens = vec![punct('#', Spacing::Alone), ident("include")];
    assert_eq!(
        reconstruct(&tokens).unwrap_err(),
        ReconstructError::MissingIncludeTarget
    );
}

#[test]
fn include_with_bad_opener_is_refused() {
    let tokens = vec![
        punct('#', Spacing::Alone),
        ident("include"),
        ident("vector"),
    ];
    assert_eq!(
        reconstruct(&tokens).unwrap_err(),
        ReconstructError::InvalidIncludeOpener
    );

    let tokens2 = vec![
        punct('#', Spacing::Alone),
        ident("include"),
        punct('(', Spacing::Alone),
    ];
    assert_eq!(
        reconstruct(&tokens2).unwrap_err(),
        ReconstructError::InvalidIncludeOpener
    );
}

#[test]
fn unterminated_angle_include_is_refused() {
    let tokens = vec![
        punct('#', Spacing::Alone),
        ident("include"),
        punct('<', Spacing::Alone),
        ident("vector"),
    ];
    assert_eq!(
        reconstruct(&tokens).unwrap_err(),
        ReconstructError::InvalidIncludeToken
    );
}

#[test]
fn literal_in_angle_include_is_refused() {
    let tokens = vec![
        punct('#', Spacing::Alone),
        ident("include"),
        punct('<', Spacing::Alone),
        literal("\"x\""),
        punct('>', Spacing::Alone),
    ];
    assert_eq!(
        reconstruct(&tokens).unwrap_err(),
        ReconstructError::InvalidIncludeToken
    );
}

#[test]
fn define_without_line_info_is_refused() {
    let tokens = vec![punct('#', Spacing::Alone), ident("define")];
    assert_eq!(
        reconstruct(&tokens).unwrap_err(),
        ReconstructError::MissingLineInfo
    );
}

#[test]
fn define_takes_the_rest_of_its_line() {
    let tokens = vec![
        punct('#', Spacing::Alone),
        ident_at("define", 1),
        ident_at("FOO", 1),
        literal_at("1", 1),
        ident_at("int", 2),
        ident_at("x", 2),
        Token { kind: TokenKind::Punct(';', Spacing::Alone), line: Some(2) },
    ];
    assert_eq!(reconstruct(&tokens).unwrap(), "\n#define FOO 1 \nint x ;\n");
}

#[test]
fn define_at_end_of_input_has_no_trailing_newline() {
    let tokens = vec![
        punct('#', Spacing::Alone),
        ident_at("endif", 3),
    ];
    assert_eq!(reconstruct(&tokens).unwrap(), "\n#endif ");
}

#[test]
fn bare_hash_is_kept() {
    let tokens = vec![punct('#', Spacing::Alone), ident("pragma")];
    assert_eq!(reconstruct(&tokens).unwrap(), "\n#pragma ");
}

#[test]
fn groups_wrap_their_delimiters() {
    let tokens = vec![
        ident("int"),
        ident("main"),
        group(Delim::Paren, vec![]),
        group(
            Delim::Brace,
            vec![ident("return"), literal("0"), punct(';', Spacing::Alone)],
        ),
    ];
    assert_eq!(reconstruct(&tokens).unwrap(), "int main (){\nreturn 0;\n\n}\n");
}

#[test]
fn minimal_sum_program_reconstructs() {
    // a minimal main returning x + y with x = 1, y = 2
    let body = vec![
        ident("int"),
        ident("x"),
        punct('=', Spacing::Alone),
        literal("1"),
        punct(';', Spacing::Alone),
        ident("int"),
        ident("y"),
        punct('=', Spacing::Alone),
        literal("2"),
        punct(';', Spacing::Alone),
        ident("return"),
        ident("x"),
        punct('+', Spacing::Alone),
        ident("y"),
        punct(';', Spacing::Alone),
    ];
    let tokens = vec![
        ident("int"),
        ident("main"),
        group(Delim::Paren, vec![]),
        group(Delim::Brace, body),
    ];
    assert_eq!(
        reconstruct(&tokens).unwrap(),
        "int main (){\nint x = 1;\nint y = 2;\nreturn x + y ;\n\n}\n"
    );
}

#[test]
fn linkage_literal_gets_a_space() {
    let tokens = vec![
        literal("\"C\""),
        group(Delim::Brace, vec![]),
    ];
    assert_eq!(reconstruct(&tokens).unwrap(), "\"C\" {\n\n}\n");
}

#[test]
fn other_literals_get_no_space() {
    let tokens = vec![literal("\"D\""), literal("42")];
    assert_eq!(reconstruct(&tokens).unwrap(), "\"D\"42");
}

#[test]
fn bracket_group() {
    let tokens = vec![ident("a"), group(Delim::Bracket, vec![literal("3")]), punct(';', Spacing::Alone)];
    assert_eq!(reconstruct(&tokens).unwrap(), "a [3];\n");
}

#[test]
fn bare_group_is_unwrapped() {
    let tokens = vec![group(Delim::Bare, vec![ident("x")])];
    assert_eq!(reconstruct(&tokens).unwrap(), "x ");
}

#[test]
fn error_inside_group_propagates() {
    let tokens = vec![group(
        Delim::Brace,
        vec![punct('#', Spacing::Alone), ident("include")],
    )];
    assert_eq!(
        reconstruct(&tokens).unwrap_err(),
        ReconstructError::MissingIncludeTarget
    );
}
