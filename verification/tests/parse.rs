use noisy_clippy::parse::cfg_attr;
use noisy_clippy::parse::ParseError;
use noisy_clippy::source::LineColumn;
use noisy_clippy::source::Span;
use noisy_clippy::token::Token;
use noisy_clippy::token::TokenKind;

/// Lays the kinds out on line 1, each as wide as `width` says, with one
/// column between each two.
fn tokens(kinds: Vec<(TokenKind, usize)>) -> Vec<Token> {
    let mut column = 0;
    let mut out = Vec::new();
    for (kind, width) in kinds {
        let span = Span::new(LineColumn::new(1, column), LineColumn::new(1, column + width));
        out.push(Token::new(kind, span));
        column += width + 1;
    }
    out
}

fn word(text: &str) -> (TokenKind, usize) {
    (TokenKind::Ident(text.to_owned()), text.len())
}

fn punct(ch: char, joint: bool) -> (TokenKind, usize) {
    (TokenKind::Punct(ch, joint), 1)
}

fn sep() -> Vec<(TokenKind, usize)> {
    vec![punct(':', true), punct(':', false)]
}

fn comma() -> (TokenKind, usize) {
    punct(',', false)
}

fn text(value: &str) -> (TokenKind, usize) {
    (TokenKind::Str(value.to_owned()), value.len() + 2)
}

fn open() -> (TokenKind, usize) {
    (TokenKind::OpenParen, 1)
}

fn close() -> (TokenKind, usize) {
    (TokenKind::CloseParen, 1)
}

fn other() -> (TokenKind, usize) {
    (TokenKind::Other, 1)
}

fn path(words: &[&str]) -> Vec<(TokenKind, usize)> {
    let mut out = Vec::new();
    for (i, w) in words.iter().enumerate() {
        if i > 0 {
            out.extend(sep());
        }
        out.push(word(w));
    }
    out
}

fn list(paths: Vec<Vec<(TokenKind, usize)>>) -> Vec<(TokenKind, usize)> {
    let mut out = Vec::new();
    for (i, p) in paths.into_iter().enumerate() {
        if i > 0 {
            out.push(comma());
        }
        out.extend(p);
    }
    out
}

fn span(from: usize, to: usize) -> Span {
    Span::new(LineColumn::new(1, from), LineColumn::new(1, to))
}

fn allow(tokens: &Vec<Token>) -> Result<Vec<(String, Span)>, ParseError> {
    noisy_clippy::parse::allow(tokens)
}

fn conditional(feature: &str, inner: Vec<(TokenKind, usize)>) -> Vec<(TokenKind, usize)> {
    let mut out = vec![word("feature"), punct('=', false), text(feature), comma(), word("allow"), open()];
    out.extend(inner);
    out.push(close());
    out
}

#[test]
fn allow_of_one_lint() {
    // clippy :: lintname, laid out as columns 0..6, 7, 9, 11..19
    let found = allow(&tokens(path(&["clippy", "lintname"]))).unwrap();
    assert_eq!(found, vec![("lintname".to_owned(), span(0, 19))]);
}

#[test]
fn allow_of_two_lints() {
    let found = allow(&tokens(list(vec![path(&["clippy", "a"]), path(&["clippy", "b"])]))).unwrap();
    assert_eq!(found, vec![("a".to_owned(), span(0, 12)), ("b".to_owned(), span(15, 27))]);
}

#[test]
fn allow_of_nothing_finds_nothing() {
    assert_eq!(allow(&Vec::new()), Ok(Vec::new()));
}

#[test]
fn allow_takes_a_comma_after_the_last_path() {
    let mut kinds = path(&["clippy", "a"]);
    kinds.push(comma());
    let found = allow(&tokens(kinds)).unwrap();
    assert_eq!(found, vec![("a".to_owned(), span(0, 12))]);
}

#[test]
fn allow_passes_over_paths_that_are_no_clippy_lints() {
    let kinds = list(vec![
        path(&["dead_code"]),
        path(&["rustdoc", "x"]),
        path(&["clippy", "a", "b"]),
        path(&["clippy"]),
        path(&["Clippy", "c"]),
        path(&["clippy", "d"]),
    ]);
    let found = allow(&tokens(kinds)).unwrap();
    assert_eq!(found.len(), 1);
    assert_eq!(found[0].0, "d");
}

#[test]
fn allow_whose_every_path_is_another_tool_finds_nothing() {
    let kinds = list(vec![path(&["dead_code"]), path(&["unused", "x"])]);
    assert_eq!(allow(&tokens(kinds)), Ok(Vec::new()));
}

#[test]
fn allow_with_two_colons_in_front_of_the_path() {
    let mut kinds = sep();
    kinds.extend(path(&["clippy", "a"]));
    let found = allow(&tokens(kinds)).unwrap();
    // the span starts with the word `clippy`, at column 4
    assert_eq!(found, vec![("a".to_owned(), span(4, 16))]);
}

#[test]
fn allow_refuses_what_is_no_list_of_paths() {
    let cases: Vec<Vec<(TokenKind, usize)>> = vec![
        vec![comma()],
        vec![word("a"), word("b")],
        vec![word("a"), comma(), comma()],
        vec![word("clippy"), punct(':', true), punct(':', false)],
        vec![word("clippy"), punct(':', false), punct(':', false), word("a")],
        vec![word("clippy"), punct(':', true), word("a")],
        vec![text("clippy::a")],
        vec![other()],
        vec![word("a"), open(), close()],
        vec![word("a"), close()],
        vec![close()],
        vec![word("a"), punct('=', false), text("b")],
    ];
    for kinds in cases {
        assert_eq!(allow(&tokens(kinds)), Err(ParseError::Syntax));
    }
}

#[test]
fn cfg_attr_of_two_lints() {
    let kinds = conditional("cargo-clippy", list(vec![path(&["x"]), path(&["y"])]));
    // feature = "cargo-clippy" , allow ( x , y )
    // 0..7    8 10..24         25 27..32 33 35 37 39 41
    let found = cfg_attr(&tokens(kinds)).unwrap();
    assert_eq!(found, vec![("x".to_owned(), span(35, 36)), ("y".to_owned(), span(39, 40))]);
}

#[test]
fn cfg_attr_for_another_feature_is_refused() {
    for feature in ["clippy", "cargo-clippy ", "Cargo-Clippy", "", "cargo_clippy"] {
        let kinds = conditional(feature, list(vec![path(&["x"]), path(&["y"])]));
        assert_eq!(cfg_attr(&tokens(kinds)), Err(ParseError::Feature));
    }
    // the feature is looked at before what follows it
    let kinds = vec![word("feature"), punct('=', false), text("other")];
    assert_eq!(cfg_attr(&tokens(kinds)), Err(ParseError::Feature));
}

#[test]
fn cfg_attr_takes_qualified_paths_for_no_lint() {
    let kinds = conditional(
        "cargo-clippy",
        list(vec![path(&["clippy", "x"]), path(&["y"]), vec![punct(':', true), punct(':', false), word("z")]]),
    );
    let found = cfg_attr(&tokens(kinds)).unwrap();
    assert_eq!(found.len(), 1);
    assert_eq!(found[0].0, "y");
}

#[test]
fn cfg_attr_with_an_empty_list_finds_nothing() {
    assert_eq!(cfg_attr(&tokens(conditional("cargo-clippy", Vec::new()))), Ok(Vec::new()));
}

#[test]
fn cfg_attr_takes_one_comma_at_the_end() {
    let mut kinds = conditional("cargo-clippy", path(&["x"]));
    kinds.push(comma());
    assert_eq!(cfg_attr(&tokens(kinds.clone())).unwrap().len(), 1);
    kinds.push(comma());
    assert_eq!(cfg_attr(&tokens(kinds)), Err(ParseError::Syntax));
}

#[test]
fn cfg_attr_refuses_other_forms() {
    let good = conditional("cargo-clippy", path(&["x"]));
    let mut cases: Vec<Vec<(TokenKind, usize)>> = Vec::new();
    cases.push(Vec::new());
    cases.push(vec![word("feature")]);
    cases.push(vec![word("feature"), punct('=', false)]);
    cases.push(vec![word("feature"), punct('=', false), text("cargo-clippy")]);
    cases.push(vec![word("feature"), punct('=', false), word("cargo")]);
    // each token of the good form replaced by one that does not belong there
    for i in [0, 1, 3, 4, 5, 7] {
        let mut changed = good.clone();
        changed[i] = other();
        cases.push(changed);
    }
    // the good form cut short, and with a token behind it
    cases.push(good[..7].to_vec());
    cases.push(good[..6].to_vec());
    let mut longer = good.clone();
    longer.push(word("x"));
    cases.push(longer);
    // `all(feature = ...)` and `not(...)` are other conditions
    let mut nested = vec![word("all"), open()];
    nested.extend(good.clone());
    nested.push(close());
    cases.push(nested);
    for kinds in cases {
        assert_eq!(cfg_attr(&tokens(kinds)), Err(ParseError::Syntax));
    }
    assert!(cfg_attr(&tokens(good)).is_ok());
}

#[test]
fn words_that_can_stand_in_a_path() {
    let at = span(0, 1);
    for text in ["clippy", "needless_return", "allow", "feature", "r#type", "self", "Self", "super", "crate", "try", "é", "union"] {
        let token = Token::word(text.to_owned(), at);
        assert!(matches!(&token.kind, TokenKind::Ident(word) if word == text));
        assert_eq!(token.span, at);
    }
    for text in ["_", "fn", "type", "unsafe", "as", "true", "", "a b", "1", "a-b", "a::b"] {
        let token = Token::word(text.to_owned(), at);
        assert!(matches!(token.kind, TokenKind::Other));
    }
}
