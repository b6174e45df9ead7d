//! Whether a changelog is ready for a release: its newest release is the
//! one that is about to be made, and the text defines the link of every
//! release.

use crate::changelog::{Changelog, ChangelogView, link_at, release_from};
use crate::consts::UNRELEASED;
use crate::date::Date;
use crate::error::{RenderError, SanityError};
use crate::link::{Link, LinkView};
use crate::release::ReleaseView;
use crate::text::{contains, has_sub, same_text};
use crate::version::version_text;
use vstd::prelude::*;

verus! {

/// The index at or after `from` of the first of `releases` that has a
/// version.
pub open spec fn versioned_from(releases: Seq<ReleaseView>, from: int) -> Option<int>
    decreases releases.len() - from,
{
    if from < 0 || from >= releases.len() {
        None
    } else if releases[from].version is Some {
        Some(from)
    } else {
        versioned_from(releases, from + 1)
    }
}

/// Whether the newest release with a version is the release of the
/// version written `version` on the date `today`.
pub open spec fn latest_is(releases: Seq<ReleaseView>, version: Seq<char>, today: Date) -> Result<
    (),
    SanityError,
> {
    match versioned_from(releases, 0) {
        None => Err(SanityError::ReleaseAbsent),
        Some(i) => if version_text(releases[i].version->0) != version {
            Err(SanityError::ReleaseAbsent)
        } else {
            match releases[i].date {
                None => Err(SanityError::MissingDate),
                Some(date) => if date == today {
                    Ok(())
                } else {
                    Err(SanityError::ReleaseAbsent)
                },
            }
        },
    }
}

/// The anchor of the link of a release: its version, and the word
/// "Unreleased" for a release without version.
pub open spec fn anchor_of(r: ReleaseView) -> Seq<char> {
    match r.version {
        Some(v) => version_text(v),
        None => UNRELEASED@,
    }
}

/// Whether one of the link definitions from index `i` on leads into the
/// repository at `repo_url` and has the anchor `anchor` and the URL `url`.
pub open spec fn defines(
    links: Seq<LinkView>,
    repo_url: Seq<char>,
    anchor: Seq<char>,
    url: Seq<char>,
    i: int,
) -> bool
    decreases links.len() - i,
{
    if i < 0 || i >= links.len() {
        false
    } else if has_sub(links[i].url, repo_url) && links[i].url == url && links[i].anchor == anchor {
        true
    } else {
        defines(links, repo_url, anchor, url, i + 1)
    }
}

/// The link of the release `r` in the changelog `c`: that of the first
/// release of `c` that equals `r`.
pub open spec fn link_of_equal(c: ChangelogView, r: ReleaseView) -> Result<
    Option<LinkView>,
    RenderError,
> {
    match release_from(c.releases, r, 0) {
        Some(i) => link_at(c, i),
        None => Err(RenderError::ReleaseNotFound),
    }
}

/// The links `expected` followed by the links that the releases from
/// index `i` on should have, each under the anchor of its release; and
/// whether `complete` is set and the text defines each of them. A release
/// whose link cannot be derived, or that has none, is an error.
pub open spec fn legend_from(
    c: ChangelogView,
    repo_url: Seq<char>,
    i: int,
    expected: Seq<LinkView>,
    complete: bool,
) -> Result<(Seq<LinkView>, bool), SanityError>
    decreases c.releases.len() - i,
{
    if i < 0 || i >= c.releases.len() {
        Ok((expected, complete))
    } else {
        match link_of_equal(c, c.releases[i]) {
            Err(e) => Err(SanityError::Link(e)),
            Ok(None) => Err(SanityError::MissingLink),
            Ok(Some(link)) => {
                let anchor = anchor_of(c.releases[i]);
                legend_from(
                    c,
                    repo_url,
                    i + 1,
                    expected.push(LinkView { anchor, url: link.url }),
                    complete && defines(c.links, repo_url, anchor, link.url, 0),
                )
            },
        }
    }
}

/// The links that the releases of a changelog should have, and whether
/// the text defines each of them.
pub struct Legend {
    pub expected: Vec<Link>,
    pub complete: bool,
}

/// The outcome of looking at the links as plain values.
pub open spec fn legend_view(r: Result<Legend, SanityError>) -> Result<
    (Seq<LinkView>, bool),
    SanityError,
> {
    match r {
        Ok(legend) => Ok((legend.expected.deep_view(), legend.complete)),
        Err(e) => Err(e),
    }
}

impl Changelog {
    /// Whether the newest release with a version is the release of the
    /// version written `version` on the date `today`.
    pub fn check_latest(&self, version: &str, today: &Date) -> (r: Result<(), SanityError>)
        ensures
            r == latest_is(self@.releases, version@, *today),
    {
        let mut i: usize = 0;
        while i < self.releases.len() && self.releases[i].version.is_none()
            invariant
                i <= self.releases.len(),
                versioned_from(self@.releases, i as int) == versioned_from(self@.releases, 0),
            decreases self.releases.len() - i,
        {
            i = i + 1;
        }
        if i >= self.releases.len() {
            return Err(SanityError::ReleaseAbsent);
        }
        let latest = &self.releases[i];
        let written = match &latest.version {
            Some(v) => v.render(),
            None => {
                return Err(SanityError::ReleaseAbsent);
            },
        };
        if !same_text(written.as_str(), version) {
            return Err(SanityError::ReleaseAbsent);
        }
        match &latest.date {
            None => Err(SanityError::MissingDate),
            Some(date) => {
                if date.year == today.year && date.month == today.month && date.day == today.day {
                    Ok(())
                } else {
                    Err(SanityError::ReleaseAbsent)
                }
            },
        }
    }

    /// Whether one of the link definitions of the text leads into the
    /// repository at `repo_url` and has the anchor `anchor` and the URL
    /// `url`.
    pub fn defines_link(&self, repo_url: &str, anchor: &str, url: &str) -> (b: bool)
        ensures
            b == defines(self@.links, repo_url@, anchor@, url@, 0),
    {
        let mut i: usize = 0;
        while i < self.links.len()
            invariant
                i <= self.links.len(),
                defines(self@.links, repo_url@, anchor@, url@, i as int) == defines(
                    self@.links,
                    repo_url@,
                    anchor@,
                    url@,
                    0,
                ),
            decreases self.links.len() - i,
        {
            let link = &self.links[i];
            if contains(link.url.as_str(), repo_url) && same_text(link.url.as_str(), url)
                && same_text(link.anchor.as_str(), anchor) {
                return true;
            }
            i = i + 1;
        }
        false
    }

    /// The links that the releases should have, and whether the text
    /// defines each of them among its links into the repository at
    /// `repo_url`.
    pub fn legend(&self, repo_url: &str) -> (r: Result<Legend, SanityError>)
        ensures
            legend_view(r) == legend_from(self@, repo_url@, 0, Seq::<LinkView>::empty(), true),
    {
        let mut expected: Vec<Link> = Vec::new();
        let mut complete = true;
        let mut i: usize = 0;
        assert(expected.deep_view() =~= Seq::<LinkView>::empty());
        while i < self.releases.len()
            invariant
                i <= self.releases.len(),
                legend_from(self@, repo_url@, i as int, expected.deep_view(), complete)
                    == legend_from(self@, repo_url@, 0, Seq::<LinkView>::empty(), true),
            decreases self.releases.len() - i,
        {
            let release = &self.releases[i];
            let link = match release.compare_link(self) {
                Err(e) => {
                    return Err(SanityError::Link(e));
                },
                Ok(None) => {
                    return Err(SanityError::MissingLink);
                },
                Ok(Some(link)) => link,
            };
            let anchor = match &release.version {
                Some(v) => v.render(),
                None => UNRELEASED.to_string(),
            };
            if complete {
                complete = self.defines_link(repo_url, anchor.as_str(), link.url.as_str());
            }
            let ghost before = expected.deep_view();
            let wanted = Link { anchor, url: link.url };
            expected.push(wanted);
            assert(expected.deep_view() =~= before.push(wanted@));
            i = i + 1;
        }
        Ok(Legend { expected, complete })
    }
}

} // verus!
