use keep_a_changelog::changelog::{ChangeLogParseOptions, Changelog};
use keep_a_changelog::date::Date;
use keep_a_changelog::error::{RenderError, SanityError};
use keep_a_changelog::remote::{git_tag, normalize_origin_url, tag_from};

const TEXT: &str = "# Changelog

## [Unreleased]

## [1.1.0] - 2024-02-01

## [1.0.0] - 2024-01-01

[Unreleased]: https://github.com/org/repo/compare/1.1.0...HEAD
[1.1.0]: https://github.com/org/repo/compare/1.0.0...1.1.0
[1.0.0]: https://github.com/org/repo/releases/tag/1.0.0
";

fn parsed(text: &str) -> Changelog {
    let opts = ChangeLogParseOptions {
        url: Some("https://github.com/org/repo".to_string()),
        tag_prefix: None,
        head: None,
    };
    Changelog::parse(text, opts).unwrap()
}

#[test]
fn latest_release_is_the_one_of_today() {
    let c = parsed(TEXT);
    assert_eq!(c.check_latest("1.1.0", &Date::new(2024, 2, 1)), Ok(()));
    assert_eq!(c.check_latest("1.1.0", &Date::new(2024, 2, 2)), Err(SanityError::ReleaseAbsent));
    assert_eq!(c.check_latest("1.0.0", &Date::new(2024, 1, 1)), Err(SanityError::ReleaseAbsent));
    assert_eq!(
        Changelog::new().check_latest("1.0.0", &Date::new(2024, 1, 1)),
        Err(SanityError::ReleaseAbsent)
    );
    let c = parsed("# T\n\n## [2.0.0] - Unreleased\n");
    assert_eq!(c.check_latest("2.0.0", &Date::new(2024, 1, 1)), Err(SanityError::MissingDate));
}

#[test]
fn legend_is_complete_where_every_link_is_defined() {
    let c = parsed(TEXT);
    let legend = c.legend("https://github.com/org/repo").unwrap();
    assert!(legend.complete);
    let lines: Vec<String> = legend.expected.iter().map(|l| l.render()).collect();
    assert_eq!(
        lines,
        vec![
            "[Unreleased]: https://github.com/org/repo/compare/1.1.0...HEAD".to_string(),
            "[1.1.0]: https://github.com/org/repo/compare/1.0.0...1.1.0".to_string(),
            "[1.0.0]: https://github.com/org/repo/releases/tag/1.0.0".to_string(),
        ]
    );
    assert!(c.defines_link(
        "https://github.com/org/repo",
        "1.0.0",
        "https://github.com/org/repo/releases/tag/1.0.0"
    ));
    assert!(!c.defines_link("https://github.com/org/repo", "1.0.0", "https://github.com/org/repo"));
    assert!(!c.defines_link(
        "https://gitlab.com",
        "1.0.0",
        "https://github.com/org/repo/releases/tag/1.0.0"
    ));
}

#[test]
fn legend_is_incomplete_where_a_link_is_missing_or_wrong() {
    let text = TEXT.replace("compare/1.0.0...1.1.0", "compare/0.9.0...1.1.0");
    let legend = parsed(&text).legend("https://github.com/org/repo").unwrap();
    assert!(!legend.complete);
    assert_eq!(legend.expected.len(), 3);
    let text = TEXT.replace("[1.0.0]: https://github.com/org/repo/releases/tag/1.0.0\n", "");
    assert!(!parsed(&text).legend("https://github.com/org/repo").unwrap().complete);
}

#[test]
fn legend_needs_a_link_for_every_release() {
    let c = parsed("# T\n\n## [Unreleased]\n");
    assert_eq!(c.legend("https://github.com/org/repo").err(), Some(SanityError::MissingLink));
    let mut c = parsed(TEXT);
    c.url = None;
    assert_eq!(
        c.legend("https://github.com/org/repo").err(),
        Some(SanityError::Link(RenderError::MissingRepositoryUrl))
    );
}

#[test]
fn ssh_remote_becomes_https() {
    assert_eq!(
        normalize_origin_url("git@github.com:org/repo.git"),
        Ok("https://github.com/org/repo".to_string())
    );
    assert_eq!(
        normalize_origin_url("https://github.com/org/repo"),
        Ok("https://github.com/org/repo".to_string())
    );
}

#[test]
fn tag_among_refs() {
    assert_eq!(git_tag("HEAD -> main, /tag: v1.2.3/i"), Ok(Some("v1.2.3".to_string())));
    assert_eq!(git_tag("HEAD -> main, tag: v1.2.3"), Ok(None));
    assert_eq!(tag_from(&None), None);
    assert_eq!(tag_from(&Some(vec![Some("x".to_string()), Some("y".to_string())])), Some("y".to_string()));
    assert_eq!(tag_from(&Some(vec![Some("x".to_string())])), None);
}
