use keep_a_changelog::changelog::{keeps_link, ChangeLogParseOptions, Changelog};
use keep_a_changelog::changes::{ChangeKind, Changes};
use keep_a_changelog::date::Date;
use keep_a_changelog::error::{ParseError, RenderError};
use keep_a_changelog::link::Link;
use keep_a_changelog::parser::{
    process_tokens, read_heading, release_from_heading, release_with, take_footer, take_items,
    take_links, take_releases, take_sections, url_from,
};
use keep_a_changelog::pattern::group;
use keep_a_changelog::release::Release;
use keep_a_changelog::text::{
    concat_strings, copy_lines, copy_optional_text, drop_blank_lines, is_blank_str, same_lines,
    same_optional_text, string_of, string_of_range, chars_of,
};
use keep_a_changelog::token::{Token, TokenKind};
use keep_a_changelog::utils::{first_line, has_kind};
use keep_a_changelog::version::Version;

fn token(line: usize, kind: TokenKind, content: &[&str]) -> Token {
    Token::new(line, kind, content.iter().map(|s| s.to_string()).collect())
}

fn groups(parts: &[Option<&str>]) -> Option<Vec<Option<String>>> {
    Some(parts.iter().map(|p| p.map(|s| s.to_string())).collect())
}

#[test]
fn release_from_version_and_date() {
    let d = Date::new(2024, 1, 2);
    let r = release_with(4, Some(Version::new(1, 2, 3)), Some(d), true).unwrap();
    assert_eq!(r.version, Some(Version::new(1, 2, 3)));
    assert_eq!(r.date, Some(d));
    assert!(r.yanked);
    assert_eq!(r.description, None);
    assert!(r.changes.is_empty());
    assert_eq!(release_with(4, None, Some(d), false), Err(ParseError::UnparsableVersion { line: 4 }));
    assert_eq!(
        release_with(4, Some(Version::new(1, 2, 3)), None, false),
        Err(ParseError::UnparsableDate { line: 4 })
    );
    assert_eq!(release_with(4, None, None, false), Err(ParseError::UnparsableVersion { line: 4 }));
}

#[test]
fn release_from_the_groups_of_a_heading() {
    let dated = groups(&[Some("[1.0.0] - 2024-01-02"), Some("1.0.0 "), Some("2024-01-02"), None]);
    let r = release_from_heading(1, "[1.0.0] - 2024-01-02", &dated, &None).unwrap();
    assert_eq!(r.version, Some(Version::new(1, 0, 0)));
    assert_eq!(r.date, Some(Date::new(2024, 1, 2)));
    assert!(!r.yanked);

    let dated = groups(&[Some("x"), Some("1.0.0"), Some("2024-01-02"), Some(" [yanked]")]);
    assert!(release_from_heading(1, "x", &dated, &None).unwrap().yanked);

    let dated = groups(&[Some("x"), Some("1.0"), Some("2024-01-02"), None]);
    assert_eq!(
        release_from_heading(9, "x", &dated, &None),
        Err(ParseError::UnparsableVersion { line: 9 })
    );
    let dated = groups(&[Some("x"), Some("1.0.0"), Some("2024-02-31"), None]);
    assert_eq!(
        release_from_heading(9, "x", &dated, &None),
        Err(ParseError::UnparsableDate { line: 9 })
    );
    let dated = groups(&[Some("x"), None, Some("2024-02-01"), None]);
    assert_eq!(
        release_from_heading(9, "x", &dated, &None),
        Err(ParseError::UnrecognizedRelease { line: 9 })
    );

    let r = release_from_heading(1, "[unreleased] [yanked]", &None, &None).unwrap();
    assert!(r.is_unreleased());
    assert!(r.yanked);
    let undated = groups(&[Some("[2.0.0] - unreleased"), Some("2.0.0"), None]);
    let r = release_from_heading(1, "[2.0.0] - unreleased", &None, &undated).unwrap();
    assert_eq!(r.version, Some(Version::new(2, 0, 0)));
    assert_eq!(r.date, None);
    let undated = groups(&[Some("[next] - unreleased"), Some("next"), None]);
    let r = release_from_heading(1, "[next] - unreleased", &None, &undated).unwrap();
    assert!(r.is_unreleased());
    assert_eq!(
        release_from_heading(6, "released", &None, &None),
        Err(ParseError::UnrecognizedRelease { line: 6 })
    );
}

#[test]
fn headings_as_the_patterns_read_them() {
    let r = read_heading(1, "[1.2.3-RC.1] - 2024-03-04 [YANKED]").unwrap();
    assert_eq!(r.version, Version::parse("1.2.3-rc.1"));
    assert_eq!(r.date, Some(Date::new(2024, 3, 4)));
    assert!(r.yanked);
    let r = read_heading(1, "1.2.3  -  2024-3-4").unwrap();
    assert_eq!(r.version, Some(Version::new(1, 2, 3)));
    assert_eq!(r.date, Some(Date::new(2024, 3, 4)));
    assert!(read_heading(1, "[Unreleased]").unwrap().is_unreleased());
    assert!(read_heading(1, "UNRELEASED").unwrap().is_unreleased());
    assert_eq!(read_heading(2, "[1.2.3]"), Err(ParseError::UnrecognizedRelease { line: 2 }));
    assert_eq!(read_heading(2, "[1.2.3] - 24-03-04"), Err(ParseError::UnrecognizedRelease { line: 2 }));
}

#[test]
fn items_and_sections() {
    let mut tokens = vec![
        token(1, TokenKind::Li, &["a"]),
        token(2, TokenKind::Li, &["b", "c"]),
        token(4, TokenKind::P, &["x"]),
        token(5, TokenKind::Li, &["d"]),
    ];
    let mut changes = Changes::new();
    take_items(&mut tokens, ChangeKind::Fixed, &mut changes);
    assert_eq!(changes.fixed, vec!["a".to_string(), "b\nc".to_string()]);
    assert_eq!(tokens.len(), 2);

    let mut tokens = vec![
        token(1, TokenKind::H3, &["Added"]),
        token(2, TokenKind::Li, &["a"]),
        token(3, TokenKind::H3, &["REMOVED"]),
        token(4, TokenKind::H3, &["added"]),
        token(5, TokenKind::Li, &["b"]),
        token(6, TokenKind::H2, &["next"]),
    ];
    let changes = take_sections(&mut tokens).unwrap();
    assert_eq!(changes.added, vec!["a".to_string(), "b".to_string()]);
    assert!(changes.removed.is_empty());
    assert_eq!(tokens, vec![token(6, TokenKind::H2, &["next"])]);

    let mut tokens = vec![token(7, TokenKind::H3, &["Broken"]), token(8, TokenKind::Li, &["a"])];
    assert_eq!(take_sections(&mut tokens), Err(ParseError::UnknownChangeKind { line: 7 }));
}

#[test]
fn releases_links_and_footer() {
    let mut tokens = vec![
        token(1, TokenKind::H2, &["[Unreleased]"]),
        token(2, TokenKind::P, &["words"]),
        token(3, TokenKind::H3, &["Added"]),
        token(4, TokenKind::Li, &["a"]),
        token(5, TokenKind::H2, &["[1.0.0] - 2024-01-01"]),
        token(6, TokenKind::Link, &["[x]: https://h/r/compare/a...b"]),
        token(7, TokenKind::Link, &["[y]: https://other/compare/a...b"]),
        token(8, TokenKind::Hr, &["-"]),
        token(9, TokenKind::P, &["the", "end"]),
        token(11, TokenKind::H1, &["late"]),
    ];
    let releases = take_releases(&mut tokens).unwrap();
    assert_eq!(releases.len(), 2);
    assert_eq!(releases[0].description, Some("words".to_string()));
    assert_eq!(releases[0].changes.added, vec!["a".to_string()]);
    assert_eq!(releases[1].version, Some(Version::new(1, 0, 0)));
    assert_eq!(tokens.len(), 5);

    let (links, url) = take_links(&mut tokens, None).unwrap();
    assert_eq!(links.len(), 2);
    assert_eq!(links[0], Link { anchor: "x".to_string(), url: "https://h/r/compare/a...b".to_string() });
    assert_eq!(url, Some("https://h/r".to_string()));
    assert_eq!(tokens.len(), 3);

    assert_eq!(take_footer(&mut tokens), Some("the\nend".to_string()));
    assert_eq!(tokens, vec![token(11, TokenKind::H1, &["late"])]);
    assert_eq!(take_footer(&mut tokens), None);
    assert_eq!(tokens.len(), 1);

    let mut tokens = vec![token(3, TokenKind::Link, &["[x]:https://h"])];
    assert_eq!(take_links(&mut tokens, None), Err(ParseError::MalformedLink { line: 3 }));
    let mut tokens = vec![token(3, TokenKind::Link, &["[x]: https://h/compare/a...b"])];
    let (_, url) = take_links(&mut tokens, Some("given".to_string())).unwrap();
    assert_eq!(url, Some("given".to_string()));
}

#[test]
fn url_from_what_was_found() {
    let found = groups(&[Some("whole"), Some("https://h/r")]);
    assert_eq!(url_from(Some("known".to_string()), &found), Some("known".to_string()));
    assert_eq!(url_from(None, &found), Some("https://h/r".to_string()));
    assert_eq!(url_from(None, &None), None);
    assert_eq!(url_from(None, &groups(&[Some("whole")])), None);
    assert_eq!(group(&vec![Some("a".to_string()), None], 0), Some("a".to_string()));
    assert_eq!(group(&vec![Some("a".to_string()), None], 1), None);
    assert_eq!(group(&vec![Some("a".to_string()), None], 2), None);
}

#[test]
fn tokens_to_changelog() {
    let tokens = vec![
        token(1, TokenKind::Flag, &["f"]),
        token(2, TokenKind::H1, &["T"]),
        token(3, TokenKind::Li, &["item"]),
        token(4, TokenKind::H2, &["[0.1.0] - 2020-02-02"]),
    ];
    let opts = ChangeLogParseOptions { url: None, tag_prefix: Some("v".to_string()), head: None };
    let c = process_tokens(tokens, opts).unwrap();
    assert_eq!(c.flag, Some("f".to_string()));
    assert_eq!(c.title, Some("T".to_string()));
    assert_eq!(c.description, Some("- item".to_string()));
    assert_eq!(c.tag_prefix, Some("v".to_string()));
    assert_eq!(c.head, "HEAD");
    assert_eq!(c.releases.len(), 1);
    let none: Vec<Token> = vec![];
    assert_eq!(
        process_tokens(none, ChangeLogParseOptions::new()),
        Err(ParseError::MissingRequiredToken { line: 0 })
    );
}

#[test]
fn kept_links() {
    let docs = Link { anchor: "docs".to_string(), url: "u".to_string() };
    assert!(keeps_link(&docs, false));
    assert!(!keeps_link(&docs, true));
    let unreleased = Link { anchor: "The Unreleased".to_string(), url: "u".to_string() };
    assert!(!keeps_link(&unreleased, false));
    let mut c = Changelog::new();
    c.links.push(docs.copy());
    c.links.push(Link { anchor: "v1.2.3".to_string(), url: "u".to_string() });
    c.links.push(Link { anchor: "1.2.3-rc.4".to_string(), url: "u".to_string() });
    c.links.push(Link { anchor: "1.2".to_string(), url: "u".to_string() });
    let text = c.render().unwrap();
    assert!(text.contains("\n[docs]: u\n[1.2]: u\n"));
    assert!(!text.contains("1.2.3"));
}

#[test]
fn finding_releases() {
    let mut c = Changelog::new();
    let mut a = Release::new();
    a.version = Some(Version::new(1, 0, 0));
    a.date = Some(Date::new(2024, 1, 1));
    let mut b = Release::new();
    b.version = Some(Version::new(2, 0, 0));
    b.date = Some(Date::new(2024, 2, 1));
    c.add_release(a.copy()).add_release(b.copy()).add_release(Release::new());
    assert_eq!(c.unreleased_index(), Some(0));
    assert_eq!(c.find_version(&Version::new(1, 0, 0)), Some(&c.releases[2]));
    assert_eq!(c.find_version(&Version::new(1, 0, 1)), None);
    assert_eq!(c.link_of_release(0), Err(RenderError::MissingRepositoryUrl));
    assert_eq!(c.link_of_release(3), Err(RenderError::ReleaseNotFound));
    assert!(a.before(&b));
    assert!(!b.before(&a));
    assert!(Release::new().before(&a));
    c.releases.remove(0);
    assert_eq!(c.unreleased_index(), None);
    c.releases.reverse();
    c.sort_releases();
    assert_eq!(c.releases[0].version, Some(Version::new(2, 0, 0)));
}

#[test]
fn more_text_helpers() {
    let lines = vec!["".to_string(), " ".to_string(), "a".to_string(), "".to_string(), "b".to_string(), "\t".to_string()];
    assert_eq!(drop_blank_lines(&lines), vec!["a".to_string(), "".to_string(), "b".to_string()]);
    assert_eq!(drop_blank_lines(&vec![" ".to_string()]), Vec::<String>::new());
    assert_eq!(copy_lines(&lines, 2, 5), vec!["a".to_string(), "".to_string(), "b".to_string()]);
    assert_eq!(concat_strings(&lines), " ab\t");
    assert!(is_blank_str(" \u{a0}\u{2003}"));
    assert!(!is_blank_str(" \u{200b}"));
    assert!(same_lines(&lines, &lines.clone()));
    assert!(!same_lines(&lines, &lines[1..].to_vec()));
    assert!(same_optional_text(&None, &None));
    assert!(same_optional_text(&Some("a".to_string()), &Some("a".to_string())));
    assert!(!same_optional_text(&Some("a".to_string()), &None));
    assert_eq!(copy_optional_text(&Some("a".to_string())), Some("a".to_string()));
    let chars = chars_of("héllo");
    assert_eq!(chars, vec!['h', 'é', 'l', 'l', 'o']);
    assert_eq!(string_of(&chars), "héllo");
    assert_eq!(string_of_range(&chars, 1, 3), "él");
    assert!(has_kind(&vec![TokenKind::P, TokenKind::Li], TokenKind::Li));
    assert!(!has_kind(&vec![], TokenKind::Li));
    assert_eq!(first_line(&vec![token(9, TokenKind::P, &["x"])]), 9);
    assert_eq!(first_line(&vec![]), 0);
}
