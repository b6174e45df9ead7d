use keep_a_changelog::changelog::{Changelog, ChangelogBuilder};
use keep_a_changelog::changes::{
    ensure_newline, print_change, print_changes, ChangeKind, Changes, UnknownChangeKind,
};
use keep_a_changelog::date::{date_comes_before, Date};
use keep_a_changelog::link::{Link, LinkError};
use keep_a_changelog::release::{Release, ReleaseBuilder};
use keep_a_changelog::sorting::{sort, sort_by_date};
use keep_a_changelog::text::{contains, decimal, decimal_padded, find_sub, remove_chars, same_text, skip, starts_with};
use keep_a_changelog::version::Version;

#[test]
fn link_is_cut_at_the_first_separator() {
    assert_eq!(
        Link::parse("[a b]: https://x.example/y: z".to_string()),
        Ok(Link { anchor: "a b".to_string(), url: "https://x.example/y: z".to_string() })
    );
    assert_eq!(
        Link::parse("[[1.0.0]]x]: u".to_string()),
        Ok(Link { anchor: "1.0.0x".to_string(), url: "u".to_string() })
    );
    assert_eq!(Link::parse(": ".to_string()), Ok(Link { anchor: String::new(), url: String::new() }));
    assert_eq!(Link::parse("[a]:https://x".to_string()), Err(LinkError::MissingUrl));
    assert_eq!(Link::parse("".to_string()), Err(LinkError::MissingUrl));
}

#[test]
fn link_as_text() {
    let link = Link { anchor: "1.0.0".to_string(), url: "https://x".to_string() };
    assert_eq!(link.render(), "[1.0.0]: https://x");
    assert_eq!(Link::parse(link.render()), Ok(link.copy()));
}

#[test]
fn change_kind_by_name() {
    assert_eq!(ChangeKind::from_str("added"), Ok(ChangeKind::Added));
    assert_eq!(ChangeKind::from_str("Changed"), Ok(ChangeKind::Changed));
    assert_eq!(ChangeKind::from_str("DEPRECATED"), Ok(ChangeKind::Deprecated));
    assert_eq!(ChangeKind::from_str("rEmOvEd"), Ok(ChangeKind::Removed));
    assert_eq!(ChangeKind::from_str("Fixed"), Ok(ChangeKind::Fixed));
    assert_eq!(ChangeKind::from_str("Security"), Ok(ChangeKind::Security));
    assert_eq!(ChangeKind::from_str("Unknown"), Err(UnknownChangeKind));
    assert_eq!(ChangeKind::from_str(" added"), Err(UnknownChangeKind));
    assert_eq!(ChangeKind::named("Added"), None);
    assert_eq!(ChangeKind::named("added"), Some(ChangeKind::Added));
    assert_eq!(ChangeKind::Deprecated.title(), "Deprecated");
}

#[test]
fn changes_add_appends_by_kind() {
    let mut c = Changes::new();
    assert!(c.is_empty());
    c.add(ChangeKind::Fixed, "one".to_string());
    c.add(ChangeKind::Added, "two".to_string());
    c.add(ChangeKind::Fixed, "three".to_string());
    assert_eq!(c.entries(ChangeKind::Fixed), &vec!["one".to_string(), "three".to_string()]);
    assert_eq!(c.entries(ChangeKind::Added), &vec!["two".to_string()]);
    assert!(c.entries(ChangeKind::Removed).is_empty());
    assert!(!c.is_empty());
    assert_eq!(c.copy(), c);
}

#[test]
fn entries_as_text() {
    assert_eq!(print_change("  one  "), "- one");
    assert_eq!(print_change("one\n two \n\nthree"), "- one\n   two\n\n  three");
    assert_eq!(print_change(""), "- ");
    let mut out = "x".to_string();
    print_changes(&mut out, &vec!["a".to_string(), "b\nc".to_string()]);
    assert_eq!(out, "x- a\n- b\n  c\n");
    let mut first = false;
    ensure_newline(&mut out, &mut first);
    assert!(first);
    assert_eq!(out, "x- a\n- b\n  c\n");
    ensure_newline(&mut out, &mut first);
    assert!(first);
    assert_eq!(out, "x- a\n- b\n  c\n\n");
}

#[test]
fn builder_adds_changes_by_name() {
    let mut b = ReleaseBuilder::new();
    b.add_change("added".to_string(), "one".to_string())
        .unwrap()
        .add_change("FIXED".to_string(), "two".to_string())
        .unwrap();
    assert_eq!(b.add_change("nothing".to_string(), "x".to_string()).err(), Some(UnknownChangeKind));
    let r = b.build();
    assert_eq!(r.changes().added, vec!["one".to_string()]);
    assert_eq!(r.changes().fixed, vec!["two".to_string()]);
    assert_eq!(r.version(), &None);
    assert_eq!(r.date(), &None);
    assert!(!r.yanked());
    assert_eq!(r.description(), &None);
    assert!(r.is_unreleased());
}

#[test]
fn release_equality_by_value() {
    let mut a = Release::new();
    a.version = Some(Version::parse("1.0.0-rc.1").unwrap());
    a.date = Some(Date::new(2024, 1, 1));
    a.changes.add(ChangeKind::Added, "x".to_string());
    let mut b = a.copy();
    assert!(a.same(&b));
    b.changes.add(ChangeKind::Added, "y".to_string());
    assert!(!a.same(&b));
    let mut c = a.copy();
    c.version = Some(Version::parse("1.0.0-rc.2").unwrap());
    assert!(!a.same(&c));
    let mut d = a.copy();
    d.empty_changes();
    assert!(d.changes.is_empty());
    assert!(!a.same(&d));
}

#[test]
fn versions_are_read_and_written() {
    let v = Version::parse("1.22.333-alpha.1+build.007").unwrap();
    assert_eq!((v.major, v.minor, v.patch), (1, 22, 333));
    assert_eq!(v.pre, "alpha.1");
    assert_eq!(v.build, "build.007");
    assert_eq!(v.render(), "1.22.333-alpha.1+build.007");
    assert_eq!(Version::new(0, 0, 0).render(), "0.0.0");
    assert_eq!(
        Version::new(u64::MAX, 10, 9).render(),
        "18446744073709551615.10.9"
    );
    assert_eq!(Version::parse("1.0"), None);
    assert_eq!(Version::parse("1.0.0 "), None);
    assert_eq!(Version::parse("01.0.0"), None);
    assert!(v.same(&v.copy()));
    assert!(!v.same(&Version::new(1, 22, 333)));
}

#[test]
fn version_text_agrees_with_semver() {
    for text in ["0.0.0", "1.2.3", "10.20.30-rc.1", "1.0.0+b", "1.0.0-a.b.c+d.e", "1.0.0--"] {
        let ours = Version::parse(text).unwrap();
        let theirs = semver::Version::parse(text).unwrap();
        assert_eq!(ours.render(), theirs.to_string());
    }
}

#[test]
fn dates_are_read_and_written() {
    assert_eq!(Date::parse("2024-01-31"), Some(Date::new(2024, 1, 31)));
    assert_eq!(Date::parse("2024-1-3"), Some(Date::new(2024, 1, 3)));
    assert_eq!(Date::parse("2024-02-30"), None);
    assert_eq!(Date::parse("2024-13-01"), None);
    assert_eq!(Date::parse("yesterday"), None);
    assert_eq!(Date::new(2024, 1, 3).render(), "2024-01-03");
    assert_eq!(Date::new(987, 12, 31).render(), "0987-12-31");
    assert_eq!(Date::new(0, 1, 1).render(), "0000-01-01");
    assert_eq!(Date::new(-5, 1, 1).render(), "-0005-01-01");
    assert_eq!(Date::new(12345, 1, 1).render(), "+12345-01-01");
}

#[test]
fn date_text_agrees_with_chrono() {
    for (y, m, d) in [(2024, 2, 29), (1, 1, 1), (0, 12, 31), (9999, 12, 31), (10000, 1, 1), (-1, 6, 15), (-12345, 1, 1)] {
        let theirs = chrono::NaiveDate::from_ymd_opt(y, m, d).unwrap();
        assert_eq!(Date::new(y, m, d).render(), theirs.format("%Y-%m-%d").to_string());
    }
}

#[test]
fn dates_in_order() {
    let a = Date::new(2024, 1, 31);
    let b = Date::new(2024, 2, 1);
    assert!(a.before(&b));
    assert!(!b.before(&a));
    assert!(!a.before(&a));
    assert!(Date::new(2023, 12, 31).before(&a));
    assert!(date_comes_before(&None, &Some(a)));
    assert!(!date_comes_before(&Some(a), &None));
    assert!(!date_comes_before(&None, &None));
    assert!(date_comes_before(&Some(a), &Some(b)));
}

fn dated(version: &str, date: Option<(i32, u32, u32)>) -> Release {
    let mut r = Release::new();
    r.version = Some(Version::parse(version).unwrap());
    r.date = date.map(|(y, m, d)| Date::new(y, m, d));
    r
}

fn versions(releases: &[Release]) -> Vec<String> {
    releases
        .iter()
        .map(|r| r.version.as_ref().map(|v| v.render()).unwrap_or("-".to_string()))
        .collect()
}

#[test]
fn sorting_is_stable_and_newest_first() {
    let sorted = sort_by_date(vec![
        dated("1.0.0", Some((2024, 1, 1))),
        dated("0.0.1", None),
        dated("2.0.0", Some((2024, 2, 1))),
        dated("1.0.1", Some((2024, 1, 1))),
        dated("0.0.2", None),
        dated("3.0.0", Some((2025, 1, 1))),
    ]);
    assert_eq!(versions(&sorted), vec!["3.0.0", "2.0.0", "1.0.0", "1.0.1", "0.0.1", "0.0.2"]);
}

#[test]
fn sorting_puts_the_first_unreleased_in_front() {
    let sorted = sort(vec![
        dated("1.0.0", Some((2024, 1, 1))),
        Release::new(),
        dated("2.0.0", Some((2024, 2, 1))),
        Release::new(),
    ]);
    assert_eq!(versions(&sorted), vec!["-", "2.0.0", "1.0.0", "-"]);
    assert_eq!(versions(&sort(vec![])), Vec::<String>::new());
}

#[test]
fn builder_sets_every_field() {
    let mut b = ChangelogBuilder::new();
    assert_eq!(b.default_head(), "HEAD");
    b.flag(Some("f".to_string()))
        .title(Some("T".to_string()))
        .description(Some("D".to_string()))
        .head("main".to_string())
        .footer(Some("F".to_string()))
        .url(Some("https://h/r".to_string()))
        .tag_prefix(Some("v".to_string()))
        .releases(vec![dated("1.0.0", Some((2024, 1, 1))), Release::new()]);
    b.links(vec!["[a]: b".to_string(), "[c]: d".to_string()]).unwrap();
    assert_eq!(b.links(vec!["[a]: b".to_string(), "nothing".to_string()]).err(), Some(LinkError::MissingUrl));
    let c = b.build();
    assert_eq!(c.flag(), &Some("f".to_string()));
    assert_eq!(c.title(), &Some("T".to_string()));
    assert_eq!(c.description(), &Some("D".to_string()));
    assert_eq!(c.head(), "main");
    assert_eq!(c.footer(), &Some("F".to_string()));
    assert_eq!(c.url(), &Some("https://h/r".to_string()));
    assert_eq!(c.tag_prefix(), &Some("v".to_string()));
    assert_eq!(versions(c.releases()), vec!["-", "1.0.0"]);
    assert_eq!(c.links().len(), 2);
    assert_eq!(c.copy(), c);
    assert_eq!(c.tag_name("1.0.0".to_string()), "v1.0.0");
    assert_eq!(Changelog::new().tag_name("1.0.0".to_string()), "1.0.0");
}

#[test]
fn defaults_are_empty() {
    assert!(Changes::default().is_empty());
    assert_eq!(ReleaseBuilder::default().build(), Release::new());
    assert_eq!(ChangelogBuilder::default().build(), Changelog::new());
    let opts = keep_a_changelog::ChangeLogParseOptions::default();
    assert_eq!((opts.url, opts.tag_prefix, opts.head), (None, None, None));
}

#[test]
fn text_helpers() {
    assert!(starts_with("## x", "## "));
    assert!(starts_with("x", ""));
    assert!(!starts_with("#", "# "));
    assert!(contains("abc", "bc"));
    assert!(contains("abc", ""));
    assert!(!contains("abc", "cb"));
    assert!(!contains("", "a"));
    assert_eq!(find_sub("a: b: c", ": "), Some(1));
    assert_eq!(find_sub("ééé: x", ": "), Some(3));
    assert_eq!(find_sub("abc", "abcd"), None);
    assert_eq!(remove_chars("[a[b]]c", '[', ']'), "abc");
    assert_eq!(skip("héllo", 2), "llo");
    assert!(same_text("a", "a"));
    assert!(!same_text("a", "ab"));
    assert_eq!(decimal(0), "0");
    assert_eq!(decimal(1234567890), "1234567890");
    assert_eq!(decimal_padded(7, 2), "07");
    assert_eq!(decimal_padded(123, 2), "123");
    assert_eq!(decimal_padded(0, 4), "0000");
}
