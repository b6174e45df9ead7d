use keep_a_changelog::changelog::{ChangeLogParseOptions, Changelog};
use keep_a_changelog::changes::ChangeKind;
use keep_a_changelog::date::Date;
use keep_a_changelog::error::{ParseError, TokenizeError};
use keep_a_changelog::parser::Parser;
use keep_a_changelog::version::Version;

fn options() -> ChangeLogParseOptions {
    ChangeLogParseOptions { url: None, tag_prefix: None, head: None }
}

const SAMPLE: &str = "<!-- keep -->
# Changelog

All notable changes.
Second line.

## [Unreleased]

### Added

- A pending feature

## [1.1.0] - 2024-02-01

Some words about the release.

### Added

- Feature one
  with a second line
- Feature two

### Fixed

- A bug

## [1.0.0] - 2024-01-01 [YANKED]

### Security

- A hole

[docs]: https://example.com/docs
[Unreleased]: https://github.com/org/repo/compare/1.1.0...HEAD
[1.1.0]: https://github.com/org/repo/compare/1.0.0...1.1.0
[1.0.0]: https://github.com/org/repo/releases/tag/1.0.0
";

#[test]
fn parses_a_whole_changelog() {
    let c = Changelog::parse(SAMPLE, options()).unwrap();
    assert_eq!(c.flag, Some("keep".to_string()));
    assert_eq!(c.title, Some("Changelog".to_string()));
    assert_eq!(c.description, Some("All notable changes.\nSecond line.".to_string()));
    assert_eq!(c.head, "HEAD");
    assert_eq!(c.footer, None);
    assert_eq!(c.url, Some("https://github.com/org/repo".to_string()));
    assert_eq!(c.tag_prefix, None);
    assert_eq!(c.releases.len(), 3);
    assert_eq!(c.links.len(), 4);

    let unreleased = &c.releases[0];
    assert_eq!(unreleased.version, None);
    assert_eq!(unreleased.date, None);
    assert!(!unreleased.yanked);
    assert_eq!(unreleased.changes.entries(ChangeKind::Added), &vec!["A pending feature".to_string()]);

    let second = &c.releases[1];
    assert_eq!(second.version, Some(Version::new(1, 1, 0)));
    assert_eq!(second.date, Some(Date::new(2024, 2, 1)));
    assert_eq!(second.description, Some("Some words about the release.".to_string()));
    assert_eq!(
        second.changes.added,
        vec!["Feature one\nwith a second line".to_string(), "Feature two".to_string()]
    );
    assert_eq!(second.changes.fixed, vec!["A bug".to_string()]);
    assert!(second.changes.changed.is_empty());

    let first = &c.releases[2];
    assert_eq!(first.version, Some(Version::new(1, 0, 0)));
    assert_eq!(first.date, Some(Date::new(2024, 1, 1)));
    assert!(first.yanked);
    assert_eq!(first.changes.security, vec!["A hole".to_string()]);

    assert_eq!(c.links[0].anchor, "docs");
    assert_eq!(c.links[0].url, "https://example.com/docs");
    assert_eq!(c.links[3].anchor, "1.0.0");
}

#[test]
fn parser_and_changelog_agree() {
    let a = Changelog::parse(SAMPLE, options()).unwrap();
    let b = Parser::parse(SAMPLE.to_string(), options()).unwrap();
    assert_eq!(a, b);
}

#[test]
fn options_take_precedence_over_links() {
    let opts = ChangeLogParseOptions {
        url: Some("https://gitlab.com/a/b".to_string()),
        tag_prefix: Some("v".to_string()),
        head: Some("main".to_string()),
    };
    let c = Changelog::parse(SAMPLE, opts).unwrap();
    assert_eq!(c.url, Some("https://gitlab.com/a/b".to_string()));
    assert_eq!(c.tag_prefix, Some("v".to_string()));
    assert_eq!(c.head, "main");
}

#[test]
fn url_is_taken_from_the_first_compare_link() {
    let text = "# T\n\n[a]: https://one.example/x/compare/1...2\n[b]: https://two.example/y/-/compare/1...2\n";
    let c = Changelog::parse(text, options()).unwrap();
    assert_eq!(c.url, Some("https://one.example/x".to_string()));
    let text = "# T\n\n[b]: https://two.example/y/-/compare/1...2\n";
    let c = Changelog::parse(text, options()).unwrap();
    assert_eq!(c.url, Some("https://two.example/y".to_string()));
}

#[test]
fn releases_are_put_in_order() {
    let text = "# T\n\n## [1.0.0] - 2024-01-01\n\n## [Unreleased]\n\n## [2.0.0] - 2024-03-01\n\n## [1.5.0] - 2024-02-01\n";
    let c = Changelog::parse(text, options()).unwrap();
    let versions: Vec<Option<Version>> = c.releases.iter().map(|r| r.version.clone()).collect();
    assert_eq!(
        versions,
        vec![
            None,
            Some(Version::new(2, 0, 0)),
            Some(Version::new(1, 5, 0)),
            Some(Version::new(1, 0, 0))
        ]
    );
}

#[test]
fn heading_without_brackets_is_read() {
    let c = Changelog::parse("# T\n\n## 1.2.3 - 2024-05-06\n", options()).unwrap();
    assert_eq!(c.releases[0].version, Some(Version::new(1, 2, 3)));
    assert_eq!(c.releases[0].date, Some(Date::new(2024, 5, 6)));
}

#[test]
fn invalid_date_is_a_date_error() {
    let r = Changelog::parse("# T\n\n## 1.0.0 - 2024-13-40\n", options());
    assert_eq!(r, Err(ParseError::UnparsableDate { line: 3 }));
    let r = Changelog::parse("# T\n\n## [1.0.0] - 2024-02-30\n", options());
    assert_eq!(r, Err(ParseError::UnparsableDate { line: 3 }));
}

#[test]
fn invalid_version_is_a_version_error() {
    let r = Changelog::parse("# T\n\n## [1.0] - 2024-01-01\n", options());
    assert_eq!(r, Err(ParseError::UnparsableVersion { line: 3 }));
}

#[test]
fn unknown_change_kind_is_an_error() {
    let r = Changelog::parse("# T\n\n## [Unreleased]\n\n### Unknown\n\n- x\n", options());
    assert_eq!(r, Err(ParseError::UnknownChangeKind { line: 5 }));
    let r = Changelog::parse("# T\n\n## [Unreleased]\n\n### Unknown\n", options());
    assert_eq!(r, Err(ParseError::UnknownChangeKind { line: 5 }));
}

#[test]
fn change_kinds_are_read_in_any_case() {
    let c = Changelog::parse("# T\n\n## [Unreleased]\n\n### FIXED\n\n- x\n\n### deprecated\n- y\n", options())
        .unwrap();
    assert_eq!(c.releases[0].changes.fixed, vec!["x".to_string()]);
    assert_eq!(c.releases[0].changes.deprecated, vec!["y".to_string()]);
}

#[test]
fn missing_title_is_an_error() {
    assert_eq!(
        Changelog::parse("## [Unreleased]\n", options()),
        Err(ParseError::MissingRequiredToken { line: 1 })
    );
    assert_eq!(Changelog::parse("", options()), Err(ParseError::MissingRequiredToken { line: 0 }));
    assert_eq!(
        Changelog::parse("\n\nsome text\n# T\n", options()),
        Err(ParseError::MissingRequiredToken { line: 1 })
    );
}

#[test]
fn unrecognized_release_heading_is_an_error() {
    let r = Changelog::parse("# T\n\n## Something else\n", options());
    assert_eq!(r, Err(ParseError::UnrecognizedRelease { line: 3 }));
}

#[test]
fn leftover_tokens_are_an_error() {
    let r = Changelog::parse("# T\n\n## [Unreleased]\n\n### Added\n- x\n\nA paragraph\n\n### Fixed\n- y\n", options());
    assert_eq!(r, Err(ParseError::UnexpectedTrailingTokens { line: 7 }));
    let r = Changelog::parse("# T\n\n## [Unreleased]\n\n### Added\n- x\nA paragraph\n", options());
    assert_eq!(r, Err(ParseError::UnexpectedTrailingTokens { line: 7 }));
    let r = Changelog::parse("# T\n\n[a]: https://x.example\n\n# Another title\n", options());
    assert_eq!(r, Err(ParseError::UnexpectedTrailingTokens { line: 5 }));
}

#[test]
fn link_label_without_target_is_a_tokenize_error() {
    let r = Changelog::parse("# T\n\n[a]:\nnot a target\n", options());
    assert_eq!(
        r,
        Err(ParseError::Tokenize(TokenizeError::MalformedLinkContinuation { line: 3 }))
    );
    let r = Changelog::parse("# T\n\n[a]:", options());
    assert_eq!(
        r,
        Err(ParseError::Tokenize(TokenizeError::MalformedLinkContinuation { line: 3 }))
    );
}

#[test]
fn link_over_two_lines_has_no_separator() {
    let r = Changelog::parse("# T\n\n[a]:\n  https://x.example\n", options());
    assert_eq!(r, Err(ParseError::MalformedLink { line: 3 }));
}

#[test]
fn footer_is_the_text_after_the_rule() {
    let c = Changelog::parse("# T\n\n## [Unreleased]\n\n---\nThe end.\nReally.\n", options()).unwrap();
    assert_eq!(c.footer, Some("The end.\nReally.".to_string()));
    let c = Changelog::parse("# T\n\n---\n", options()).unwrap();
    assert_eq!(c.footer, None);
}

#[test]
fn unreleased_heading_may_name_a_version() {
    let c = Changelog::parse("# T\n\n## [2.0.0] - Unreleased [YANKED]\n", options()).unwrap();
    assert_eq!(c.releases[0].version, Some(Version::new(2, 0, 0)));
    assert_eq!(c.releases[0].date, None);
    assert!(c.releases[0].yanked);
    let c = Changelog::parse("# T\n\n## [next] - Unreleased\n", options()).unwrap();
    assert_eq!(c.releases[0].version, None);
    assert_eq!(c.releases[0].date, None);
}

#[test]
fn description_keeps_list_items() {
    let c = Changelog::parse("# T\n\nIntro\n\n- one\n- two\n\nOutro\n", options()).unwrap();
    assert_eq!(c.description, Some("Intro\n- one\n- two\nOutro".to_string()));
}

#[test]
fn parses_a_long_changelog() {
    let mut text = String::from("# Changelog\n\nAbout.\n\n## [Unreleased]\n\n### Added\n\n- pending\n");
    let mut links = String::new();
    for i in (1..=400u32).rev() {
        let month = 1 + i % 12;
        let day = 1 + i % 28;
        let year = 2000 + i / 12;
        text.push_str(&format!(
            "\n## [{i}.0.0] - {year}-{month:02}-{day:02}\n\nWords about {i}.\nMore words.\n\n### Added\n\n- one\n  more\n- two\n\n### Fixed\n\n- three\n"
        ));
        links.push_str(&format!("[{i}.0.0]: https://github.com/org/repo/compare/{}.0.0...{i}.0.0\n", i - 1));
    }
    text.push_str("\n");
    text.push_str(&links);
    let c = Changelog::parse(&text, options()).unwrap();
    assert_eq!(c.releases.len(), 401);
    assert_eq!(c.links.len(), 400);
    assert!(c.releases[0].is_unreleased());
    for pair in c.releases[1..].windows(2) {
        assert!(!pair[0].before(&pair[1]));
    }
    let written = c.render().unwrap();
    let again = Changelog::parse(&written, options()).unwrap();
    assert_eq!(again.releases, c.releases);
    assert_eq!(again.render().unwrap(), written);
}
