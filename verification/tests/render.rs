use keep_a_changelog::changelog::{ChangeLogParseOptions, Changelog, CutError};
use keep_a_changelog::changes::{ChangeKind, Changes};
use keep_a_changelog::date::Date;
use keep_a_changelog::error::RenderError;
use keep_a_changelog::link::Link;
use keep_a_changelog::release::Release;
use keep_a_changelog::token::{tokenize, TokenKind};
use keep_a_changelog::version::Version;

fn release(version: &str, date: (i32, u32, u32)) -> Release {
    let mut b = Release::builder();
    b.version(Version::parse(version).unwrap()).date(Date::new(date.0, date.1, date.2));
    b.build()
}

fn three_releases(tag_prefix: Option<&str>) -> Changelog {
    let mut c = Changelog::new();
    c.url = Some("https://github.com/org/repo".to_string());
    c.tag_prefix = tag_prefix.map(|p| p.to_string());
    c.add_release(release("1.0.0", (2024, 1, 1)));
    c.add_release(release("1.1.0", (2024, 2, 1)));
    c.add_release(Release::new());
    c
}

fn links_of(c: &Changelog) -> Vec<String> {
    c.releases
        .iter()
        .map(|r| r.compare_link(c).unwrap().unwrap().render())
        .collect()
}

#[test]
fn links_between_three_releases() {
    let c = three_releases(None);
    assert_eq!(
        links_of(&c),
        vec![
            "[Unreleased]: https://github.com/org/repo/compare/1.1.0...HEAD".to_string(),
            "[1.1.0]: https://github.com/org/repo/compare/1.0.0...1.1.0".to_string(),
            "[1.0.0]: https://github.com/org/repo/releases/tag/1.0.0".to_string(),
        ]
    );
}

#[test]
fn links_with_tag_prefix() {
    let c = three_releases(Some("v"));
    assert_eq!(
        links_of(&c),
        vec![
            "[Unreleased]: https://github.com/org/repo/compare/v1.1.0...HEAD".to_string(),
            "[1.1.0]: https://github.com/org/repo/compare/v1.0.0...v1.1.0".to_string(),
            "[1.0.0]: https://github.com/org/repo/releases/tag/v1.0.0".to_string(),
        ]
    );
}

#[test]
fn links_on_another_host_use_tags() {
    let mut c = three_releases(None);
    c.url = Some("https://gitlab.com/org/repo".to_string());
    c.head = "main".to_string();
    assert_eq!(
        links_of(&c),
        vec![
            "[Unreleased]: https://gitlab.com/org/repo/compare/1.1.0...main".to_string(),
            "[1.1.0]: https://gitlab.com/org/repo/compare/1.0.0...1.1.0".to_string(),
            "[1.0.0]: https://gitlab.com/org/repo/-/tags/1.0.0".to_string(),
        ]
    );
}

#[test]
fn lone_unreleased_has_no_link() {
    let mut c = Changelog::new();
    c.add_release(Release::new());
    assert_eq!(c.releases[0].compare_link(&c), Ok(None));
    assert!(c.render().is_ok());
}

#[test]
fn link_needs_the_repository_url() {
    let mut c = three_releases(None);
    c.url = None;
    assert_eq!(c.releases[1].compare_link(&c), Err(RenderError::MissingRepositoryUrl));
    assert_eq!(c.render(), Err(RenderError::MissingRepositoryUrl));
}

#[test]
fn link_of_a_release_that_is_not_there() {
    let c = three_releases(None);
    let other = release("9.9.9", (2030, 1, 1));
    assert_eq!(other.compare_link(&c), Err(RenderError::ReleaseNotFound));
}

#[test]
fn version_without_date_cannot_be_written() {
    let mut r = Release::new();
    r.version = Some(Version::new(1, 0, 0));
    assert_eq!(r.render(), Err(RenderError::InconsistentReleaseDateVersion));
    let mut r = Release::new();
    r.date = Some(Date::new(2024, 1, 1));
    assert_eq!(r.render(), Err(RenderError::InconsistentReleaseDateVersion));
}

#[test]
fn renders_changes_in_fixed_order() {
    let mut changes = Changes::new();
    changes.add(ChangeKind::Security, "A hole".to_string());
    changes.add(ChangeKind::Added, "One\nsecond line  \n\nlast".to_string());
    changes.add(ChangeKind::Added, "Two".to_string());
    assert_eq!(
        changes.render(),
        "### Added\n- One\n  second line\n\n  last\n- Two\n\n### Security\n- A hole\n"
    );
    assert_eq!(Changes::new().render(), "");
}

#[test]
fn renders_a_release() {
    let mut b = Release::builder();
    b.version(Version::parse("1.2.3-rc.1+b5").unwrap())
        .date(Date::new(2024, 3, 9))
        .yanked(true)
        .description(Some("Words.".to_string()));
    b.add_change("ADDED".to_string(), "x".to_string()).unwrap();
    assert_eq!(
        b.build().render().unwrap(),
        "## [1.2.3-rc.1+b5] - 2024-03-09 [YANKED]\nWords.\n### Added\n- x\n"
    );
    assert_eq!(Release::new().render().unwrap(), "## [Unreleased]\n");
}

#[test]
fn renders_a_whole_changelog() {
    let mut c = three_releases(None);
    c.flag = Some("keep".to_string());
    c.title = Some("History".to_string());
    c.description = Some("  About.  ".to_string());
    c.footer = Some("The end.".to_string());
    c.links.push(Link { anchor: "docs".to_string(), url: "https://example.com".to_string() });
    c.links.push(Link { anchor: "1.0.0".to_string(), url: "https://old.example".to_string() });
    c.links.push(Link { anchor: "Unreleased".to_string(), url: "https://old.example".to_string() });
    c.releases[1].changes.add(ChangeKind::Added, "Thing".to_string());
    let expected = "<!-- keep -->
# History
About.

## [Unreleased]

## [1.1.0] - 2024-02-01
### Added
- Thing

## [1.0.0] - 2024-01-01


[docs]: https://example.com

[Unreleased]: https://github.com/org/repo/compare/1.1.0...HEAD
[1.1.0]: https://github.com/org/repo/compare/1.0.0...1.1.0
[1.0.0]: https://github.com/org/repo/releases/tag/1.0.0
---
The end.

";
    assert_eq!(c.render().unwrap(), expected);
}

#[test]
fn renders_defaults_for_an_empty_changelog() {
    let c = Changelog::new();
    assert_eq!(
        c.render().unwrap(),
        "# Changelog\nAll notable changes to this project will be documented in this file.\nThe format is based on [Keep a Changelog](https://keepachangelog.com/)\nand this project adheres to [Semantic Versioning](https://semver.org/).\n\n\n"
    );
}

#[test]
fn changelog_without_description_is_written_the_same_again() {
    let mut c = Changelog::new();
    c.url = Some("https://github.com/org/repo".to_string());
    let mut pending = Release::new();
    pending.changes.add(ChangeKind::Added, "First entry".to_string());
    c.add_release(pending);
    c.add_release(release("1.0.0", (2024, 1, 1)));
    let first = c.render().unwrap();
    assert!(first.starts_with(
        "# Changelog\nAll notable changes to this project will be documented in this file.\n"
    ));
    assert!(first.contains("and this project adheres to [Semantic Versioning](https://semver.org/).\n\n## [Unreleased]\n"));
    let opts = ChangeLogParseOptions {
        url: Some("https://github.com/org/repo".to_string()),
        tag_prefix: None,
        head: None,
    };
    let parsed = Changelog::parse(&first, opts).unwrap();
    assert_eq!(parsed.title, Some("Changelog".to_string()));
    assert_eq!(
        parsed.description,
        Some(
            "All notable changes to this project will be documented in this file.\nThe format is based on [Keep a Changelog](https://keepachangelog.com/)\nand this project adheres to [Semantic Versioning](https://semver.org/)."
                .to_string()
        )
    );
    assert_eq!(parsed.releases, c.releases);
    assert_eq!(parsed.render().unwrap(), first);
}

#[test]
fn empty_changelog_is_written_the_same_again() {
    let first = Changelog::new().render().unwrap();
    let parsed = Changelog::parse(&first, ChangeLogParseOptions::default()).unwrap();
    assert_eq!(parsed.releases.len(), 0);
    assert_eq!(parsed.render().unwrap(), first);
}

#[test]
fn render_then_parse_then_render_is_stable() {
    let mut c = three_releases(Some("v"));
    c.flag = Some("keep".to_string());
    c.title = Some("History".to_string());
    c.description = Some("About.\n- with an item".to_string());
    c.footer = Some("The end.".to_string());
    c.links.push(Link { anchor: "docs".to_string(), url: "https://example.com".to_string() });
    c.releases[0].changes.add(ChangeKind::Added, "Pending\nmore".to_string());
    c.releases[1].description = Some("Words.".to_string());
    c.releases[1].changes.add(ChangeKind::Fixed, "Thing".to_string());
    c.releases[2].yanked = true;
    let first = c.render().unwrap();
    let opts = ChangeLogParseOptions {
        url: None,
        tag_prefix: Some("v".to_string()),
        head: None,
    };
    let parsed = Changelog::parse(&first, opts).unwrap();
    assert_eq!(parsed.flag, c.flag);
    assert_eq!(parsed.title, c.title);
    assert_eq!(parsed.description, c.description);
    assert_eq!(parsed.footer, c.footer);
    assert_eq!(parsed.url, c.url);
    assert_eq!(parsed.releases, c.releases);
    assert_eq!(parsed.links[0], c.links[0]);
    assert_eq!(parsed.render().unwrap(), first);
}

#[test]
fn cutting_a_release() {
    let mut c = Changelog::new();
    let mut unreleased = Release::new();
    unreleased.changes.add(ChangeKind::Added, "one".to_string());
    unreleased.changes.add(ChangeKind::Added, "two".to_string());
    c.add_release(unreleased);
    let today = Date::new(2024, 6, 1);
    assert_eq!(c.cut_release(Version::new(2, 0, 0), today), Ok(()));
    assert_eq!(c.releases.len(), 2);
    assert!(c.releases[0].is_unreleased());
    assert!(c.releases[0].changes.is_empty());
    assert_eq!(c.releases[1].version, Some(Version::new(2, 0, 0)));
    assert_eq!(c.releases[1].date, Some(today));
    assert_eq!(c.releases[1].changes.added, vec!["one".to_string(), "two".to_string()]);
    assert_eq!(c.get_unreleased(), Some(&c.releases[0]));

    assert_eq!(c.cut_release(Version::new(3, 0, 0), today), Err(CutError::NoChanges));
    let mut empty = Changelog::new();
    assert_eq!(empty.cut_release(Version::new(3, 0, 0), today), Err(CutError::NoUnreleased));
}

#[test]
fn add_release_keeps_the_order() {
    let mut c = Changelog::new();
    c.add_release(release("1.0.0", (2024, 1, 1)));
    c.add_release(release("3.0.0", (2024, 3, 1)));
    c.add_release(Release::new());
    c.add_release(release("2.0.0", (2024, 2, 1)));
    c.add_release(release("2.0.1", (2024, 2, 1)));
    let versions: Vec<String> = c
        .releases
        .iter()
        .map(|r| r.version.as_ref().map(|v| v.render()).unwrap_or_default())
        .collect();
    assert_eq!(versions, vec!["", "3.0.0", "2.0.1", "2.0.0", "1.0.0"]);
}

#[test]
fn finds_a_release_by_version() {
    let c = three_releases(None);
    assert_eq!(c.find_release("1.1.0".to_string()).unwrap(), Some(&c.releases[1]));
    assert_eq!(c.find_release("4.0.0".to_string()).unwrap(), None);
    assert!(c.find_release("not a version".to_string()).is_err());
}

#[test]
fn unreleased_entry_can_be_changed_in_place() {
    let mut c = three_releases(None);
    c.get_unreleased_mut().unwrap().changes.add(ChangeKind::Added, "x".to_string());
    assert_eq!(c.releases[0].changes.added, vec!["x".to_string()]);
    c.get_unreleased_mut().unwrap().empty_changes();
    assert!(c.releases[0].changes.is_empty());
    assert!(Changelog::new().get_unreleased_mut().is_none());
    assert!(Changelog::new().get_unreleased().is_none());
}

fn sample() -> Changelog {
    let mut c = three_releases(None);
    c.flag = Some("keep".to_string());
    c.title = Some("History".to_string());
    c.description = Some("About.\n\nMore about it.".to_string());
    c.footer = Some("The end.\nReally.".to_string());
    c.links.push(Link { anchor: "docs".to_string(), url: "https://example.com".to_string() });
    c.links.push(Link { anchor: "1.0.0".to_string(), url: "https://old.example".to_string() });
    c.releases[0].changes.add(ChangeKind::Added, "Pending\nmore".to_string());
    c.releases[1].description = Some("Words.\nMore words.".to_string());
    c.releases[1].changes.add(ChangeKind::Added, "One".to_string());
    c.releases[1].changes.add(ChangeKind::Added, "Two".to_string());
    c.releases[1].changes.add(ChangeKind::Security, "Three".to_string());
    c.releases[2].yanked = true;
    c
}

#[test]
fn written_text_gives_the_tokens_that_write_the_changelog() {
    let tokens = tokenize(sample().render().unwrap()).unwrap();
    let shapes: Vec<(TokenKind, Vec<&str>)> = tokens
        .iter()
        .map(|t| (t.kind, t.content.iter().map(|s| s.as_str()).collect()))
        .collect();
    assert_eq!(
        shapes,
        vec![
            (TokenKind::Flag, vec!["keep"]),
            (TokenKind::H1, vec!["History"]),
            (TokenKind::P, vec!["About.", "", "More about it."]),
            (TokenKind::H2, vec!["[Unreleased]"]),
            (TokenKind::H3, vec!["Added"]),
            (TokenKind::Li, vec!["Pending", "more"]),
            (TokenKind::H2, vec!["[1.1.0] - 2024-02-01"]),
            (TokenKind::P, vec!["Words.", "More words."]),
            (TokenKind::H3, vec!["Added"]),
            (TokenKind::Li, vec!["One"]),
            (TokenKind::Li, vec!["Two"]),
            (TokenKind::H3, vec!["Security"]),
            (TokenKind::Li, vec!["Three"]),
            (TokenKind::H2, vec!["[1.0.0] - 2024-01-01 [YANKED]"]),
            (TokenKind::Link, vec!["[docs]: https://example.com"]),
            (TokenKind::Link, vec!["[Unreleased]: https://github.com/org/repo/compare/1.1.0...HEAD"]),
            (TokenKind::Link, vec!["[1.1.0]: https://github.com/org/repo/compare/1.0.0...1.1.0"]),
            (TokenKind::Link, vec!["[1.0.0]: https://github.com/org/repo/releases/tag/1.0.0"]),
            (TokenKind::Hr, vec!["-"]),
            (TokenKind::P, vec!["The end.", "Really."]),
        ]
    );
}

#[test]
fn written_changelog_is_read_with_the_links_written_with_it() {
    let c = sample();
    let text = c.render().unwrap();
    let opts = ChangeLogParseOptions {
        url: c.url.clone(),
        tag_prefix: c.tag_prefix.clone(),
        head: Some(c.head.clone()),
    };
    let read = Changelog::parse(&text, opts).unwrap();
    let mut expected = c.copy();
    expected.links = vec![
        Link { anchor: "docs".to_string(), url: "https://example.com".to_string() },
        Link {
            anchor: "Unreleased".to_string(),
            url: "https://github.com/org/repo/compare/1.1.0...HEAD".to_string(),
        },
        Link {
            anchor: "1.1.0".to_string(),
            url: "https://github.com/org/repo/compare/1.0.0...1.1.0".to_string(),
        },
        Link {
            anchor: "1.0.0".to_string(),
            url: "https://github.com/org/repo/releases/tag/1.0.0".to_string(),
        },
    ];
    assert_eq!(read, expected);
    assert_eq!(read.render().unwrap(), text);
}

#[test]
fn unknown_url_stays_unknown_when_no_link_shows_it() {
    let mut c = Changelog::new();
    c.title = Some("History".to_string());
    c.description = Some("  About.  ".to_string());
    c.links.push(Link { anchor: "docs".to_string(), url: "https://example.com".to_string() });
    let first = c.render().unwrap();
    assert_eq!(first, "# History\nAbout.\n\n\n[docs]: https://example.com\n\n");
    let parsed = Changelog::parse(&first, ChangeLogParseOptions::default()).unwrap();
    assert_eq!(parsed.url, None);
    assert_eq!(parsed.title, c.title);
    assert_eq!(parsed.description, Some("About.".to_string()));
    assert_eq!(parsed.links, c.links);
    assert_eq!(parsed.render().unwrap(), first);
}
