use keep_a_changelog::error::TokenizeError;
use keep_a_changelog::token::{
    clean_tokens, extract_tokens, marked_line_token, merge_tokens, push_merged, read_line,
    tokenize, unmarked_line_token, Token, TokenKind,
};

fn token(line: usize, kind: TokenKind, content: &[&str]) -> Token {
    Token::new(line, kind, content.iter().map(|s| s.to_string()).collect())
}

#[test]
fn token_new_keeps_its_parts() {
    let t = Token::new(3, TokenKind::Li, vec!["a".to_string(), "b".to_string()]);
    assert_eq!(t.line, 3);
    assert_eq!(t.kind, TokenKind::Li);
    assert_eq!(t.content, vec!["a".to_string(), "b".to_string()]);
}

#[test]
fn each_kind_of_line() {
    let text = "<!-- flag -->\n# Title\n## Release\n### Kind\n- item\n* other\n[a]: https://x.example\ntext\n---";
    let tokens = tokenize(text.to_string()).unwrap();
    assert_eq!(
        tokens,
        vec![
            token(1, TokenKind::Flag, &["flag"]),
            token(2, TokenKind::H1, &["Title"]),
            token(3, TokenKind::H2, &["Release"]),
            token(4, TokenKind::H3, &["Kind"]),
            token(5, TokenKind::Li, &["item"]),
            token(6, TokenKind::Li, &["other"]),
            token(7, TokenKind::Link, &["[a]: https://x.example"]),
            token(8, TokenKind::P, &["text"]),
            token(9, TokenKind::Hr, &["-"]),
        ]
    );
}

#[test]
fn one_token_for_each_line() {
    let raw = extract_tokens("  # T  \n\ntext  \n".to_string()).unwrap();
    assert_eq!(
        raw,
        vec![
            token(1, TokenKind::H1, &["T"]),
            token(2, TokenKind::P, &[""]),
            token(3, TokenKind::P, &["text"]),
        ]
    );
    assert_eq!(extract_tokens("".to_string()).unwrap(), vec![token(1, TokenKind::P, &[""])]);
}

#[test]
fn paragraph_lines_are_merged() {
    let tokens = tokenize("# T\n\none\ntwo\n\nthree\n## R".to_string()).unwrap();
    assert_eq!(
        tokens,
        vec![
            token(1, TokenKind::H1, &["T"]),
            token(2, TokenKind::P, &["one", "two", "", "three"]),
            token(7, TokenKind::H2, &["R"]),
        ]
    );
}

#[test]
fn indented_lines_continue_a_list_item() {
    let tokens = tokenize("- item\n  more\n \tand more\n- next".to_string()).unwrap();
    assert_eq!(
        tokens,
        vec![
            token(1, TokenKind::Li, &["item", "more", "and more"]),
            token(4, TokenKind::Li, &["next"]),
        ]
    );
}

#[test]
fn unindented_line_after_a_list_item_is_a_paragraph() {
    let tokens = tokenize("- item\nmore\n  indented".to_string()).unwrap();
    assert_eq!(
        tokens,
        vec![
            token(1, TokenKind::Li, &["item"]),
            token(2, TokenKind::P, &["more", "  indented"]),
        ]
    );
    let tokens = tokenize("- item\n\n  later".to_string()).unwrap();
    assert_eq!(
        tokens,
        vec![token(1, TokenKind::Li, &["item"]), token(2, TokenKind::P, &["  later"])]
    );
}

#[test]
fn blank_tokens_are_dropped() {
    assert_eq!(tokenize("".to_string()).unwrap(), vec![]);
    assert_eq!(tokenize(" \n\t\n".to_string()).unwrap(), vec![]);
    let tokens = tokenize("#  \n<!---->\n-\ntext".to_string()).unwrap();
    assert_eq!(tokens, vec![token(4, TokenKind::P, &["text"])]);
}

#[test]
fn link_label_takes_the_next_line() {
    let tokens = tokenize("[a]:\n  https://x.example  \ntext".to_string()).unwrap();
    assert_eq!(
        tokens,
        vec![
            token(1, TokenKind::Link, &["[a]:\n  https://x.example"]),
            token(2, TokenKind::P, &["", "text"][1..]),
        ]
    );
}

#[test]
fn link_label_without_target_is_malformed() {
    assert_eq!(
        tokenize("# T\n[a]:\ntext".to_string()),
        Err(TokenizeError::MalformedLinkContinuation { line: 2 })
    );
    assert_eq!(
        tokenize("[a]:".to_string()),
        Err(TokenizeError::MalformedLinkContinuation { line: 1 })
    );
}

#[test]
fn marked_lines() {
    let t = marked_line_token("---- anything").unwrap();
    assert_eq!((t.kind, t.content.as_str(), t.takes_next), (TokenKind::Hr, "-", false));
    let t = marked_line_token("#  Title  ").unwrap();
    assert_eq!((t.kind, t.content.as_str()), (TokenKind::H1, "Title"));
    let t = marked_line_token("## [1.0.0] - 2024-01-01").unwrap();
    assert_eq!((t.kind, t.content.as_str()), (TokenKind::H2, "[1.0.0] - 2024-01-01"));
    let t = marked_line_token("### Added").unwrap();
    assert_eq!((t.kind, t.content.as_str()), (TokenKind::H3, "Added"));
    let t = marked_line_token("-item").unwrap();
    assert_eq!((t.kind, t.content.as_str()), (TokenKind::Li, "item"));
    let t = marked_line_token("*  item").unwrap();
    assert_eq!((t.kind, t.content.as_str()), (TokenKind::Li, "item"));
    assert!(marked_line_token("#Title").is_none());
    assert!(marked_line_token(" - item").is_none());
    assert!(marked_line_token("").is_none());
}

#[test]
fn unmarked_lines_by_what_the_patterns_found() {
    let t = unmarked_line_token(1, " [a]: http://x ", None, true, false, false, &None).unwrap();
    assert_eq!((t.kind, t.content.as_str(), t.takes_next), (TokenKind::Link, "[a]: http://x", false));
    let t = unmarked_line_token(1, "[a]:", Some(" http://x  "), false, true, true, &None).unwrap();
    assert_eq!((t.kind, t.content.as_str(), t.takes_next), (TokenKind::Link, "[a]:\n http://x", true));
    assert_eq!(
        unmarked_line_token(7, "[a]:", Some("x"), false, true, false, &None).err(),
        Some(TokenizeError::MalformedLinkContinuation { line: 7 })
    );
    assert_eq!(
        unmarked_line_token(7, "[a]:", None, false, true, true, &None).err(),
        Some(TokenizeError::MalformedLinkContinuation { line: 7 })
    );
    let groups = Some(vec![Some("<!-- f -->".to_string()), Some(" f ".to_string())]);
    let t = unmarked_line_token(1, "<!-- f -->", None, false, false, false, &groups).unwrap();
    assert_eq!((t.kind, t.content.as_str()), (TokenKind::Flag, "f"));
    let t = unmarked_line_token(1, "  text  ", None, false, false, false, &None).unwrap();
    assert_eq!((t.kind, t.content.as_str()), (TokenKind::P, "  text"));
}

#[test]
fn lines_as_the_patterns_read_them() {
    let t = read_line(1, "[a]: https://x.example", None).unwrap();
    assert_eq!(t.kind, TokenKind::Link);
    let t = read_line(1, "[a]: ftp://x.example", None).unwrap();
    assert_eq!(t.kind, TokenKind::P);
    let t = read_line(1, "<!-- a --> b", None).unwrap();
    assert_eq!(t.kind, TokenKind::P);
    let t = read_line(1, "<!--a-->", None).unwrap();
    assert_eq!((t.kind, t.content.as_str()), (TokenKind::Flag, "a"));
    let t = read_line(1, "[a]:", Some("\thttps://x")).unwrap();
    assert_eq!((t.kind, t.takes_next), (TokenKind::Link, true));
    assert!(read_line(1, "[a]:", Some("https://x")).is_err());
}

#[test]
fn merging_with_given_indentation() {
    let mut acc = vec![token(1, TokenKind::Li, &["item"])];
    push_merged(&mut acc, token(2, TokenKind::P, &["  more"]), true, "more".to_string());
    assert_eq!(acc, vec![token(1, TokenKind::Li, &["item", "more"])]);
    push_merged(&mut acc, token(3, TokenKind::P, &["text"]), false, String::new());
    assert_eq!(
        acc,
        vec![token(1, TokenKind::Li, &["item", "more"]), token(3, TokenKind::P, &["text"])]
    );
    push_merged(&mut acc, token(4, TokenKind::P, &["  next"]), true, "next".to_string());
    assert_eq!(acc[1], token(3, TokenKind::P, &["text", "  next"]));
    push_merged(&mut acc, token(5, TokenKind::Li, &["x"]), false, String::new());
    assert_eq!(acc.len(), 3);
}

#[test]
fn merge_and_clean_passes() {
    let merged = merge_tokens(vec![
        token(1, TokenKind::P, &[""]),
        token(2, TokenKind::P, &["a"]),
        token(3, TokenKind::P, &[" "]),
        token(4, TokenKind::H1, &[""]),
    ]);
    assert_eq!(
        merged,
        vec![token(1, TokenKind::P, &["", "a", " "]), token(4, TokenKind::H1, &[""])]
    );
    assert_eq!(clean_tokens(merged), vec![token(1, TokenKind::P, &["a"])]);
}
