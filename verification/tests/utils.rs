use keep_a_changelog::error::ParseError;
use keep_a_changelog::token::{Token, TokenKind};
use keep_a_changelog::utils::{
    get_content, get_git_compare_url, get_git_release_url, get_text_content, is_empty_str,
    is_empty_str_vec, substring,
};

fn token(line: usize, kind: TokenKind, content: &[&str]) -> Token {
    Token::new(line, kind, content.iter().map(|s| s.to_string()).collect())
}

#[test]
fn release_url_depends_on_the_host() {
    assert_eq!(
        get_git_release_url("https://github.com/org/repo".to_string(), "v1.0.0".to_string()),
        "https://github.com/org/repo/releases/tag/v1.0.0"
    );
    assert_eq!(
        get_git_release_url("https://gitlab.com/org/repo".to_string(), "v1.0.0".to_string()),
        "https://gitlab.com/org/repo/-/tags/v1.0.0"
    );
    assert_eq!(
        get_git_release_url("http://github.com/org/repo".to_string(), "1".to_string()),
        "http://github.com/org/repo/-/tags/1"
    );
}

#[test]
fn compare_url_names_both_refs() {
    assert_eq!(
        get_git_compare_url("https://h/r".to_string(), "a".to_string(), "b".to_string()),
        "https://h/r/compare/a...b"
    );
}

#[test]
fn substring_skips_and_trims() {
    assert_eq!(substring("## Title  ".to_string(), 2), "Title");
    assert_eq!(substring("abc".to_string(), 0), "abc");
    assert_eq!(substring("abc".to_string(), 3), "");
    assert_eq!(substring("abc".to_string(), 10), "");
    assert_eq!(substring("é x ".to_string(), 1), "x");
}

#[test]
fn empty_strings() {
    assert!(is_empty_str("".to_string()));
    assert!(is_empty_str(" \t\n".to_string()));
    assert!(!is_empty_str(" x ".to_string()));
    assert!(is_empty_str_vec(vec![]));
    assert!(is_empty_str_vec(vec!["".to_string(), "  ".to_string()]));
    assert!(!is_empty_str_vec(vec!["".to_string(), "x".to_string()]));
}

#[test]
fn get_content_takes_a_token_of_the_kind() {
    let mut tokens = vec![token(1, TokenKind::H1, &["Title", "more"]), token(3, TokenKind::P, &["x"])];
    assert_eq!(get_content(&mut tokens, vec![TokenKind::Flag], false), Ok(None));
    assert_eq!(tokens.len(), 2);
    assert_eq!(
        get_content(&mut tokens, vec![TokenKind::Flag, TokenKind::H1], true),
        Ok(Some("Title\nmore".to_string()))
    );
    assert_eq!(tokens, vec![token(3, TokenKind::P, &["x"])]);
    assert_eq!(
        get_content(&mut tokens, vec![TokenKind::H1], true),
        Err(ParseError::MissingRequiredToken { line: 3 })
    );
    assert_eq!(tokens.len(), 1);
    let mut none: Vec<Token> = vec![];
    assert_eq!(
        get_content(&mut none, vec![TokenKind::H1], true),
        Err(ParseError::MissingRequiredToken { line: 0 })
    );
    assert_eq!(get_content(&mut none, vec![TokenKind::H1], false), Ok(None));
}

#[test]
fn get_content_takes_an_empty_token_too() {
    let mut tokens = vec![token(4, TokenKind::H1, &[""]), token(5, TokenKind::P, &["x"])];
    assert_eq!(get_content(&mut tokens, vec![TokenKind::H1], false), Ok(None));
    assert_eq!(tokens.len(), 1);
    let mut tokens = vec![token(4, TokenKind::H1, &[]), token(5, TokenKind::P, &["x"])];
    assert_eq!(
        get_content(&mut tokens, vec![TokenKind::H1], true),
        Err(ParseError::MissingRequiredToken { line: 4 })
    );
    assert_eq!(tokens.len(), 1);
}

#[test]
fn get_text_content_takes_paragraphs_and_items() {
    let mut tokens = vec![
        token(1, TokenKind::P, &["one", "two"]),
        token(3, TokenKind::Li, &["item", "more"]),
        token(5, TokenKind::P, &["three"]),
        token(6, TokenKind::H2, &["R"]),
        token(7, TokenKind::P, &["four"]),
    ];
    assert_eq!(
        get_text_content(&mut tokens),
        Ok(Some("one\ntwo\n- item\nmore\nthree".to_string()))
    );
    assert_eq!(tokens.len(), 2);
    assert_eq!(get_text_content(&mut tokens), Ok(None));
    assert_eq!(tokens.len(), 2);
    let mut blank = vec![token(1, TokenKind::P, &[""])];
    assert_eq!(get_text_content(&mut blank), Ok(None));
    assert!(blank.is_empty());
}
