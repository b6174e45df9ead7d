//! The changelog: the document model, the links between its releases and
//! the text it is written as.

use crate::changes::ChangesView;
use crate::consts::{
    CHANGELOG_DESCRIPTION, CHANGELOG_TITLE, COMMENT_CLOSE, COMMENT_OPEN, DEFAULT_HEAD, HEADING1,
    NEWLINE, RULE, TAG_PATTERN, UNRELEASED,
};
use crate::date::Date;
use crate::error::RenderError;
use crate::link::{Link, LinkError, LinkView, link_of, link_text};
use crate::pattern::{accepts, is_match_each, regex_accepts, regex_is_match};
use crate::release::{Release, ReleaseView, release_text, rendered_view};
use crate::sorting::{
    all_released, at_most_one_unreleased, first_unreleased, in_order,
    lemma_add_release_in_order, lemma_same_order, lemma_sorted_releases, lemma_unreleased_from,
    sort, sorted_releases, unreleased_from,
};
use crate::text::{contains, copy_optional_text, has_sub, trim, trim_of};
use crate::utils::{compare_url, get_git_compare_url, get_git_release_url, release_url};
use crate::version::{Version, VersionView, semver_parse, version_text};
use vstd::prelude::*;

verus! {

/// What is given to the parser from outside the text: the URL of the
/// repository, the prefix of its tags, and the ref that stands for the
/// changes not yet released.
#[derive(Debug, Clone, PartialEq, Eq)]
pub struct ChangeLogParseOptions {
    pub url: Option<String>,
    pub tag_prefix: Option<String>,
    pub head: Option<String>,
}

/// [`ChangeLogParseOptions`] as plain values.
pub struct OptionsView {
    pub url: Option<Seq<char>>,
    pub tag_prefix: Option<Seq<char>>,
    pub head: Option<Seq<char>>,
}

impl DeepView for ChangeLogParseOptions {
    type V = OptionsView;

    open spec fn deep_view(&self) -> OptionsView {
        OptionsView {
            url: self.url.deep_view(),
            tag_prefix: self.tag_prefix.deep_view(),
            head: self.head.deep_view(),
        }
    }
}

impl View for ChangeLogParseOptions {
    type V = OptionsView;

    open spec fn view(&self) -> OptionsView {
        self.deep_view()
    }
}

impl Default for ChangeLogParseOptions {
    /// No URL, no tag prefix, and the default ref for the changes not yet
    /// released.
    fn default() -> (o: ChangeLogParseOptions)
        ensures
            o@ == (OptionsView { url: None, tag_prefix: None, head: None }),
    {
        ChangeLogParseOptions::new()
    }
}

impl ChangeLogParseOptions {
    /// No URL, no tag prefix, and the default ref for the changes not yet
    /// released.
    pub fn new() -> (o: ChangeLogParseOptions)
        ensures
            o@ == (OptionsView { url: None, tag_prefix: None, head: None }),
    {
        ChangeLogParseOptions { url: None, tag_prefix: None, head: None }
    }
}

/// A changelog.
#[derive(Debug, Clone, PartialEq, Eq)]
pub struct Changelog {
    /// The content of the flag comment at the top.
    pub flag: Option<String>,
    pub title: Option<String>,
    pub description: Option<String>,
    /// The ref that stands for the changes not yet released.
    pub head: String,
    /// The text after the horizontal rule at the end.
    pub footer: Option<String>,
    /// The URL of the repository.
    pub url: Option<String>,
    pub releases: Vec<Release>,
    /// The link definitions of the text.
    pub links: Vec<Link>,
    /// What stands before a version in the name of its tag.
    pub tag_prefix: Option<String>,
}

/// A [`Changelog`] as plain values.
pub struct ChangelogView {
    pub flag: Option<Seq<char>>,
    pub title: Option<Seq<char>>,
    pub description: Option<Seq<char>>,
    pub head: Seq<char>,
    pub footer: Option<Seq<char>>,
    pub url: Option<Seq<char>>,
    pub releases: Seq<ReleaseView>,
    pub links: Seq<LinkView>,
    pub tag_prefix: Option<Seq<char>>,
}

impl ChangelogView {
    /// The changelog without anything of its own.
    pub open spec fn empty() -> ChangelogView {
        ChangelogView {
            flag: None,
            title: None,
            description: None,
            head: DEFAULT_HEAD@,
            footer: None,
            url: None,
            releases: Seq::empty(),
            links: Seq::empty(),
            tag_prefix: None,
        }
    }

    /// Whether the releases are in the order that a changelog keeps.
    pub open spec fn in_order(self) -> bool {
        in_order(self.releases)
    }
}

impl DeepView for Changelog {
    type V = ChangelogView;

    open spec fn deep_view(&self) -> ChangelogView {
        ChangelogView {
            flag: self.flag.deep_view(),
            title: self.title.deep_view(),
            description: self.description.deep_view(),
            head: self.head@,
            footer: self.footer.deep_view(),
            url: self.url.deep_view(),
            releases: self.releases.deep_view(),
            links: self.links.deep_view(),
            tag_prefix: self.tag_prefix.deep_view(),
        }
    }
}

impl View for Changelog {
    type V = ChangelogView;

    open spec fn view(&self) -> ChangelogView {
        self.deep_view()
    }
}

/// The name of the tag of the version written `version`: the version
/// after the prefix, where there is one.
pub open spec fn tag_of(prefix: Option<Seq<char>>, version: Seq<char>) -> Seq<char> {
    match prefix {
        Some(p) => p + version,
        None => version,
    }
}

/// The index after `from` of the first of `releases` that has a date.
pub open spec fn dated_from(releases: Seq<ReleaseView>, from: int) -> Option<int>
    decreases releases.len() - from,
{
    if from < 0 || from >= releases.len() {
        None
    } else if releases[from].date is Some {
        Some(from)
    } else {
        dated_from(releases, from + 1)
    }
}

/// The release before the one at index `i`: the nearest release after it
/// in the list that has a date.
pub open spec fn previous_of(releases: Seq<ReleaseView>, i: int) -> Option<ReleaseView> {
    match dated_from(releases, i + 1) {
        Some(j) => Some(releases[j]),
        None => None,
    }
}

/// The link of the release `current` whose previous release is
/// `previous`.
///
/// Without previous release, the link leads to the release itself. With
/// one, it compares the two; where `current` lacks version or date it
/// stands for the changes not yet released, and the link compares the
/// previous release with the head. A link needs the URL of the repository
/// and the version of each release it names.
pub open spec fn link_between(
    c: ChangelogView,
    current: ReleaseView,
    previous: Option<ReleaseView>,
) -> Result<Option<LinkView>, RenderError> {
    match c.url {
        None => Err(RenderError::MissingRepositoryUrl),
        Some(url) => match previous {
            None => match current.version {
                None => Err(RenderError::InconsistentReleaseDateVersion),
                Some(v) => Ok(
                    Some(
                        LinkView {
                            anchor: version_text(v),
                            url: release_url(url, tag_of(c.tag_prefix, version_text(v))),
                        },
                    ),
                ),
            },
            Some(p) => match p.version {
                None => Err(RenderError::InconsistentReleaseDateVersion),
                Some(pv) => if current.date is None || current.version is None {
                    Ok(
                        Some(
                            LinkView {
                                anchor: UNRELEASED@,
                                url: compare_url(
                                    url,
                                    tag_of(c.tag_prefix, version_text(pv)),
                                    c.head,
                                ),
                            },
                        ),
                    )
                } else {
                    Ok(
                        Some(
                            LinkView {
                                anchor: version_text(current.version->0),
                                url: compare_url(
                                    url,
                                    tag_of(c.tag_prefix, version_text(pv)),
                                    tag_of(c.tag_prefix, version_text(current.version->0)),
                                ),
                            },
                        ),
                    )
                },
            },
        },
    }
}

/// The link of the release at index `i` of the changelog: none for a
/// release without version or date that has no release before it. An
/// index at which there is no release is an error.
pub open spec fn link_at(c: ChangelogView, i: int) -> Result<Option<LinkView>, RenderError> {
    if i < 0 || i >= c.releases.len() {
        Err(RenderError::ReleaseNotFound)
    } else {
        let current = c.releases[i];
        let previous = previous_of(c.releases, i);
        if previous is None && (current.date is None || current.version is None) {
            Ok(None)
        } else {
            link_between(c, current, previous)
        }
    }
}

/// The outcome of deriving a link as plain values.
pub open spec fn derived_view(r: Result<Option<Link>, RenderError>) -> Result<
    Option<LinkView>,
    RenderError,
> {
    match r {
        Ok(link) => Ok(link.deep_view()),
        Err(e) => Err(e),
    }
}

/// Whether a link definition of the text is kept when the changelog is
/// written, given whether its anchor looks like a version: it is kept
/// where its anchor neither looks like a version nor names the changes not
/// yet released.
pub open spec fn kept_given(link: LinkView, version_like: bool) -> bool {
    !version_like && !has_sub(link.anchor, UNRELEASED@)
}

/// Whether a link definition of the text is kept when the changelog is
/// written.
pub open spec fn is_kept(link: LinkView) -> bool {
    kept_given(link, regex_is_match(TAG_PATTERN@, link.anchor))
}

/// Whether the link definition `link` is kept when the changelog is
/// written, given whether its anchor looks like a version.
pub fn keeps_link(link: &Link, version_like: bool) -> (b: bool)
    ensures
        b == kept_given(link@, version_like),
{
    !version_like && !contains(link.anchor.as_str(), UNRELEASED)
}

/// The title that the changelog `c` is written with: its own, and the
/// usual one where it has none.
pub open spec fn written_title(c: ChangelogView) -> Seq<char> {
    match c.title {
        Some(t) => t,
        None => CHANGELOG_TITLE@,
    }
}

/// The description that the changelog `c` is written with: its own
/// without the white space around it, and the usual one where it has none.
pub open spec fn written_description(c: ChangelogView) -> Seq<char> {
    match c.description {
        Some(d) => trim_of(d),
        None => CHANGELOG_DESCRIPTION@,
    }
}

/// The top of a changelog as it is written: the flag comment, the title
/// and the description, each followed by a line break.
pub open spec fn top_text(c: ChangelogView) -> Seq<char> {
    let flag = match c.flag {
        Some(f) => COMMENT_OPEN@ + f + COMMENT_CLOSE@ + NEWLINE@,
        None => Seq::<char>::empty(),
    };
    let description = written_description(c) + NEWLINE@;
    flag + HEADING1@ + written_title(c) + NEWLINE@ + description
}

/// The text `text` followed by the releases from index `i` on, each after
/// an empty line, and the links `links` followed by the links of those
/// releases.
pub open spec fn releases_text(
    c: ChangelogView,
    i: int,
    text: Seq<char>,
    links: Seq<LinkView>,
) -> Result<(Seq<char>, Seq<LinkView>), RenderError>
    decreases c.releases.len() - i,
{
    if i < 0 || i >= c.releases.len() {
        Ok((text, links))
    } else {
        match link_at(c, i) {
            Err(e) => Err(e),
            Ok(link) => match release_text(c.releases[i]) {
                Err(e) => Err(e),
                Ok(release) => releases_text(
                    c,
                    i + 1,
                    text + NEWLINE@ + release,
                    match link {
                        Some(l) => links.push(l),
                        None => links,
                    },
                ),
            },
        }
    }
}

/// The text `text` followed by those of the link definitions from index
/// `i` on that are kept, each on a line of its own; and whether any was
/// kept so far.
pub open spec fn kept_links_text(links: Seq<LinkView>, i: int, text: Seq<char>, any: bool) -> (
    Seq<char>,
    bool,
)
    decreases links.len() - i,
{
    if i < 0 || i >= links.len() {
        (text, any)
    } else if is_kept(links[i]) {
        kept_links_text(links, i + 1, text + NEWLINE@ + link_text(links[i]), true)
    } else {
        kept_links_text(links, i + 1, text, any)
    }
}

/// The text `text` followed by the link definitions from index `i` on,
/// each on a line of its own.
pub open spec fn links_text(links: Seq<LinkView>, i: int, text: Seq<char>) -> Seq<char>
    decreases links.len() - i,
{
    if i < 0 || i >= links.len() {
        text
    } else {
        links_text(links, i + 1, text + NEWLINE@ + link_text(links[i]))
    }
}

/// The end of a changelog as it is written: a horizontal rule and the
/// footer, where there is one, and a last line break.
pub open spec fn bottom_text(c: ChangelogView) -> Seq<char> {
    match c.footer {
        Some(f) => NEWLINE@ + RULE@ + NEWLINE@ + f + NEWLINE@ + NEWLINE@,
        None => NEWLINE@,
    }
}

/// A changelog as it is written: the top; the releases in their order;
/// the link definitions of the text that are kept; the links of the
/// releases; the bottom.
pub open spec fn changelog_text(c: ChangelogView) -> Result<Seq<char>, RenderError> {
    if !regex_accepts(TAG_PATTERN@) {
        Err(RenderError::InvalidPattern)
    } else {
        match releases_text(c, 0, top_text(c), Seq::<LinkView>::empty()) {
            Err(e) => Err(e),
            Ok((body, derived)) => {
                let (kept, any) = kept_links_text(c.links, 0, body + NEWLINE@, false);
                let spaced = if any {
                    kept + NEWLINE@
                } else {
                    kept
                };
                Ok(links_text(derived, 0, spaced) + bottom_text(c))
            },
        }
    }
}

/// The index at or after `from` of the first of `releases` whose version
/// is `version`.
pub open spec fn version_from(releases: Seq<ReleaseView>, version: VersionView, from: int) -> Option<
    int,
>
    decreases releases.len() - from,
{
    if from < 0 || from >= releases.len() {
        None
    } else if releases[from].version == Some(version) {
        Some(from)
    } else {
        version_from(releases, version, from + 1)
    }
}

/// The index at or after `from` of the first of `releases` that equals
/// `release`.
pub open spec fn release_from(releases: Seq<ReleaseView>, release: ReleaseView, from: int) -> Option<
    int,
>
    decreases releases.len() - from,
{
    if from < 0 || from >= releases.len() {
        None
    } else if releases[from] == release {
        Some(from)
    } else {
        release_from(releases, release, from + 1)
    }
}

/// The text is no semantic version.
#[derive(Debug, Clone, Copy, PartialEq, Eq, Structural)]
pub struct InvalidVersion;

/// Why no release could be cut from the changes not yet released.
#[derive(Debug, Clone, Copy, PartialEq, Eq, Structural)]
pub enum CutError {
    /// The changelog has no entry for the changes not yet released.
    NoUnreleased,
    /// The entry for the changes not yet released holds no changes.
    NoChanges,
}

/// The release that is cut from the entry `unreleased`: it has the given
/// version and date and the changes of the entry.
pub open spec fn cut_from(unreleased: ReleaseView, version: VersionView, date: Date) -> ReleaseView {
    ReleaseView {
        version: Some(version),
        yanked: false,
        description: None,
        date: Some(date),
        changes: unreleased.changes,
    }
}

/// The releases of a changelog after the release `version` was cut on
/// `date` from the entry at index `k`: the entry is left without changes,
/// and the new release is added.
pub open spec fn releases_after_cut(
    releases: Seq<ReleaseView>,
    k: int,
    version: VersionView,
    date: Date,
) -> Seq<ReleaseView> {
    sorted_releases(
        releases.update(k, ReleaseView { changes: ChangesView::empty(), ..releases[k] }).insert(
            0,
            cut_from(releases[k], version, date),
        ),
    )
}

impl Changelog {
    /// The changelog without anything of its own.
    pub fn new() -> (c: Changelog)
        ensures
            c@ == ChangelogView::empty(),
            c@.in_order(),
    {
        let c = Changelog {
            flag: None,
            title: None,
            description: None,
            head: DEFAULT_HEAD.to_string(),
            footer: None,
            url: None,
            releases: Vec::new(),
            links: Vec::new(),
            tag_prefix: None,
        };
        assert(c.releases.deep_view() =~= Seq::<ReleaseView>::empty());
        assert(c.links.deep_view() =~= Seq::<LinkView>::empty());
        c
    }

    /// The content of the flag comment at the top.
    pub fn flag(&self) -> (r: &Option<String>)
        ensures
            r.deep_view() == self@.flag,
    {
        &self.flag
    }

    /// The title.
    pub fn title(&self) -> (r: &Option<String>)
        ensures
            r.deep_view() == self@.title,
    {
        &self.title
    }

    /// The description under the title.
    pub fn description(&self) -> (r: &Option<String>)
        ensures
            r.deep_view() == self@.description,
    {
        &self.description
    }

    /// The ref that stands for the changes not yet released.
    pub fn head(&self) -> (r: &String)
        ensures
            r@ == self@.head,
    {
        &self.head
    }

    /// The text after the horizontal rule at the end.
    pub fn footer(&self) -> (r: &Option<String>)
        ensures
            r.deep_view() == self@.footer,
    {
        &self.footer
    }

    /// The URL of the repository.
    pub fn url(&self) -> (r: &Option<String>)
        ensures
            r.deep_view() == self@.url,
    {
        &self.url
    }

    /// What stands before a version in the name of its tag.
    pub fn tag_prefix(&self) -> (r: &Option<String>)
        ensures
            r.deep_view() == self@.tag_prefix,
    {
        &self.tag_prefix
    }

    /// The releases, in their order.
    pub fn releases(&self) -> (r: &Vec<Release>)
        ensures
            r.deep_view() == self@.releases,
    {
        &self.releases
    }

    /// The link definitions of the text.
    pub fn links(&self) -> (r: &Vec<Link>)
        ensures
            r.deep_view() == self@.links,
    {
        &self.links
    }

    /// The first release whose version is `version`.
    pub fn find_version(&self, version: &Version) -> (r: Option<&Release>)
        ensures
            match version_from(self@.releases, version@, 0) {
                Some(i) => r matches Some(release) && release@ == self@.releases[i],
                None => r is None,
            },
    {
        let mut i: usize = 0;
        while i < self.releases.len()
            invariant
                i <= self.releases.len(),
                version_from(self@.releases, version@, i as int) == version_from(
                    self@.releases,
                    version@,
                    0,
                ),
            decreases self.releases.len() - i,
        {
            let found = match &self.releases[i].version {
                Some(v) => v.same(version),
                None => false,
            };
            if found {
                return Some(&self.releases[i]);
            }
            i = i + 1;
        }
        None
    }

    /// The first release whose version is the one that `version` writes;
    /// an error where `version` is no semantic version.
    pub fn find_release(&self, version: String) -> (r: Result<Option<&Release>, InvalidVersion>)
        ensures
            match semver_parse(version@) {
                None => r == Err::<Option<&Release>, InvalidVersion>(InvalidVersion),
                Some(v) => match version_from(self@.releases, v, 0) {
                    Some(i) => r matches Ok(Some(release)) && release@ == self@.releases[i],
                    None => r matches Ok(None),
                },
            },
    {
        match Version::parse(version.as_str()) {
            Some(wanted) => Ok(self.find_version(&wanted)),
            None => Err(InvalidVersion),
        }
    }

    /// The index of the entry for the changes not yet released: the first
    /// release without version and date.
    pub fn unreleased_index(&self) -> (r: Option<usize>)
        ensures
            match r {
                Some(k) => first_unreleased(self@.releases) == Some(k as int) && k
                    < self.releases.len(),
                None => first_unreleased(self@.releases) is None,
            },
    {
        let mut k: usize = 0;
        proof {
            lemma_unreleased_from(self@.releases, 0);
        }
        while k < self.releases.len()
            invariant
                k <= self.releases.len(),
                unreleased_from(self@.releases, k as int)
                    == first_unreleased(self@.releases),
            decreases self.releases.len() - k,
        {
            if self.releases[k].is_unreleased() {
                return Some(k);
            }
            k = k + 1;
        }
        None
    }

    /// The entry for the changes not yet released: the first release
    /// without version and date.
    pub fn get_unreleased(&self) -> (r: Option<&Release>)
        ensures
            match first_unreleased(self@.releases) {
                Some(k) => r matches Some(release) && release@ == self@.releases[k],
                None => r is None,
            },
    {
        match self.unreleased_index() {
            Some(k) => Some(&self.releases[k]),
            None => None,
        }
    }

    /// The entry for the changes not yet released, to be changed in
    /// place.
    pub fn get_unreleased_mut(&mut self) -> (r: Option<&mut Release>)
        ensures
            match first_unreleased(old(self)@.releases) {
                Some(k) => r matches Some(release) && *release == old(self).releases@[k]
                    && *final(self) == (Changelog {
                    releases: final(self).releases,
                    ..*old(self)
                }) && final(self).releases@ == old(self).releases@.update(k, *final(release)),
                None => r is None && *final(self) == *old(self),
            },
    {
        match self.unreleased_index() {
            Some(k) => {
                let release = &mut self.releases[k];
                Some(release)
            },
            None => None,
        }
    }

    /// Puts the releases in the order of a changelog: the first entry
    /// without version and date in front, the others from the newest to
    /// the oldest.
    pub fn sort_releases(&mut self) -> (c: &mut Self)
        ensures
            c@ == (ChangelogView { releases: sorted_releases(old(self)@.releases), ..old(self)@ }),
            *final(self) == *final(c),
            at_most_one_unreleased(old(self)@.releases) ==> c@.in_order(),
            c@.releases.len() == old(self)@.releases.len(),
    {
        proof {
            lemma_sorted_releases(self@.releases);
        }
        let mut releases: Vec<Release> = Vec::new();
        core::mem::swap(&mut releases, &mut self.releases);
        self.releases = sort(releases);
        self
    }

    /// Adds a release and puts the releases in order again. Among
    /// releases of the same date the new one comes first.
    ///
    /// Releases that were in order stay in order, unless the new release
    /// is a second one without version and date.
    pub fn add_release(&mut self, release: Release) -> (c: &mut Self)
        ensures
            c@ == (ChangelogView {
                releases: sorted_releases(old(self)@.releases.insert(0, release@)),
                ..old(self)@
            }),
            *final(self) == *final(c),
            old(self)@.in_order() && (!release@.is_unreleased() || all_released(
                old(self)@.releases,
            )) ==> c@.in_order(),
            c@.releases.len() == old(self)@.releases.len() + 1,
    {
        let ghost before = self@.releases;
        self.releases.insert(0, release);
        assert(self.releases.deep_view() =~= before.insert(0, release@));
        proof {
            lemma_sorted_releases(before.insert(0, release@));
            if in_order(before) && (!release@.is_unreleased() || all_released(before)) {
                lemma_add_release_in_order(before, release@);
            }
        }
        self.sort_releases()
    }

    /// Cuts the release `version` on the date `today` from the changes not
    /// yet released: the new release takes the changes of the entry
    /// without version and date, and that entry is left without changes.
    /// Releases that were in order stay in order.
    ///
    /// Nothing is changed where there is no such entry or it holds no
    /// changes.
    pub fn cut_release(&mut self, version: Version, today: Date) -> (r: Result<(), CutError>)
        ensures
            match first_unreleased(old(self)@.releases) {
                None => r == Err::<(), CutError>(CutError::NoUnreleased)
                    && final(self)@ == old(self)@,
                Some(k) => if old(self)@.releases[k].changes.is_empty() {
                    r == Err::<(), CutError>(CutError::NoChanges) && final(self)@ == old(self)@
                } else {
                    r is Ok && final(self)@ == (ChangelogView {
                        releases: releases_after_cut(old(self)@.releases, k, version@, today),
                        ..old(self)@
                    })
                },
            },
            r is Ok && old(self)@.in_order() ==> final(self)@.in_order(),
    {
        let k = match self.unreleased_index() {
            Some(k) => k,
            None => {
                return Err(CutError::NoUnreleased);
            },
        };
        if self.releases[k].changes.is_empty() {
            return Err(CutError::NoChanges);
        }
        let ghost before = self@.releases;
        let mut unreleased = self.releases.remove(k);
        let release = Release {
            version: Some(version),
            yanked: false,
            description: None,
            date: Some(today),
            changes: unreleased.changes.copy(),
        };
        unreleased.empty_changes();
        self.releases.insert(k, unreleased);
        assert(self.releases.deep_view() =~= before.update(
            k as int,
            ReleaseView { changes: ChangesView::empty(), ..before[k as int] },
        ));
        proof {
            if in_order(before) {
                lemma_same_order(before, self@.releases);
            }
        }
        self.add_release(release);
        Ok(())
    }

    /// A copy of the changelog.
    pub fn copy(&self) -> (c: Changelog)
        ensures
            c@ == self@,
    {
        let mut releases: Vec<Release> = Vec::new();
        let mut i: usize = 0;
        assert(releases.deep_view() =~= self@.releases.take(0));
        while i < self.releases.len()
            invariant
                i <= self.releases.len(),
                releases.deep_view() == self@.releases.take(i as int),
            decreases self.releases.len() - i,
        {
            let ghost before = releases.deep_view();
            let release = self.releases[i].copy();
            releases.push(release);
            assert(releases.deep_view() =~= before.push(release@));
            i = i + 1;
            assert(releases.deep_view() =~= self@.releases.take(i as int));
        }
        assert(self@.releases.take(i as int) =~= self@.releases);
        let mut links: Vec<Link> = Vec::new();
        let mut k: usize = 0;
        assert(links.deep_view() =~= self@.links.take(0));
        while k < self.links.len()
            invariant
                k <= self.links.len(),
                links.deep_view() == self@.links.take(k as int),
            decreases self.links.len() - k,
        {
            let ghost before = links.deep_view();
            let link = self.links[k].copy();
            links.push(link);
            assert(links.deep_view() =~= before.push(link@));
            k = k + 1;
            assert(links.deep_view() =~= self@.links.take(k as int));
        }
        assert(self@.links.take(k as int) =~= self@.links);
        Changelog {
            flag: copy_optional_text(&self.flag),
            title: copy_optional_text(&self.title),
            description: copy_optional_text(&self.description),
            head: self.head.clone(),
            footer: copy_optional_text(&self.footer),
            url: copy_optional_text(&self.url),
            releases,
            links,
            tag_prefix: copy_optional_text(&self.tag_prefix),
        }
    }

    /// The name of the tag of the version written `version`.
    pub fn tag_name(&self, version: String) -> (tag: String)
        ensures
            tag@ == tag_of(self@.tag_prefix, version@),
    {
        match &self.tag_prefix {
            Some(prefix) => {
                let mut tag = prefix.clone();
                tag.append(version.as_str());
                tag
            },
            None => version,
        }
    }

    /// The link of the release `current` whose previous release is
    /// `previous`.
    pub fn compare_link(&self, current: &Release, previous: Option<&Release>) -> (r: Result<
        Option<Link>,
        RenderError,
    >)
        ensures
            derived_view(r) == link_between(self@, current@, previous.deep_view()),
    {
        let repo_url = match &self.url {
            Some(url) => url.clone(),
            None => {
                return Err(RenderError::MissingRepositoryUrl);
            },
        };
        let previous = match previous {
            Some(p) => p,
            None => {
                let version = match &current.version {
                    Some(v) => v.render(),
                    None => {
                        return Err(RenderError::InconsistentReleaseDateVersion);
                    },
                };
                let tag = self.tag_name(version.clone());
                return Ok(Some(Link { anchor: version, url: get_git_release_url(repo_url, tag) }));
            },
        };
        let previous_version = match &previous.version {
            Some(v) => v.render(),
            None => {
                return Err(RenderError::InconsistentReleaseDateVersion);
            },
        };
        let previous_tag = self.tag_name(previous_version);
        match (&current.version, &current.date) {
            (Some(v), Some(_)) => {
                let version = v.render();
                let tag = self.tag_name(version.clone());
                Ok(
                    Some(
                        Link {
                            anchor: version,
                            url: get_git_compare_url(repo_url, previous_tag, tag),
                        },
                    ),
                )
            },
            _ => Ok(
                Some(
                    Link {
                        anchor: UNRELEASED.to_string(),
                        url: get_git_compare_url(repo_url, previous_tag, self.head.clone()),
                    },
                ),
            ),
        }
    }

    /// The link of the release at index `index`.
    pub fn link_of_release(&self, index: usize) -> (r: Result<Option<Link>, RenderError>)
        ensures
            derived_view(r) == link_at(self@, index as int),
    {
        if index >= self.releases.len() {
            return Err(RenderError::ReleaseNotFound);
        }
        let mut j: usize = index + 1;
        while j < self.releases.len() && self.releases[j].date.is_none()
            invariant
                index < j <= self.releases.len(),
                dated_from(self@.releases, j as int) == dated_from(self@.releases, index + 1),
            decreases self.releases.len() - j,
        {
            j = j + 1;
        }
        let current = &self.releases[index];
        if j < self.releases.len() {
            self.compare_link(current, Some(&self.releases[j]))
        } else if current.date.is_none() || current.version.is_none() {
            Ok(None)
        } else {
            self.compare_link(current, None)
        }
    }

    /// The top of the changelog as it is written.
    fn render_top(&self) -> (out: String)
        ensures
            out@ == top_text(self@),
    {
        let mut out = String::new();
        if let Some(flag) = &self.flag {
            out.append(COMMENT_OPEN);
            out.append(flag.as_str());
            out.append(COMMENT_CLOSE);
            out.append(NEWLINE);
        }
        out.append(HEADING1);
        match &self.title {
            Some(title) => out.append(title.as_str()),
            None => out.append(CHANGELOG_TITLE),
        }
        out.append(NEWLINE);
        match &self.description {
            Some(description) => {
                out.append(trim(description.as_str()).as_str());
                out.append(NEWLINE);
            },
            None => {
                out.append(CHANGELOG_DESCRIPTION);
                out.append(NEWLINE);
            },
        }
        assert(out@ =~= top_text(self@));
        out
    }

    /// Puts the releases at the end of `out` and returns their links.
    fn render_releases(&self, out: &mut String) -> (r: Result<Vec<Link>, RenderError>)
        ensures
            match releases_text(self@, 0, old(out)@, Seq::<LinkView>::empty()) {
                Ok((text, links)) => r matches Ok(derived) && derived.deep_view() == links
                    && final(out)@ == text,
                Err(e) => r == Err::<Vec<Link>, RenderError>(e),
            },
    {
        let mut derived: Vec<Link> = Vec::new();
        assert(derived.deep_view() =~= Seq::<LinkView>::empty());
        let mut i: usize = 0;
        while i < self.releases.len()
            invariant
                i <= self.releases.len(),
                releases_text(self@, i as int, out@, derived.deep_view()) == releases_text(
                    self@,
                    0,
                    old(out)@,
                    Seq::<LinkView>::empty(),
                ),
            decreases self.releases.len() - i,
        {
            let link = match self.link_of_release(i) {
                Ok(link) => link,
                Err(e) => {
                    return Err(e);
                },
            };
            let release = match self.releases[i].render() {
                Ok(text) => text,
                Err(e) => {
                    return Err(e);
                },
            };
            let ghost before_text = out@;
            let ghost before_links = derived.deep_view();
            out.append(NEWLINE);
            out.append(release.as_str());
            assert(out@ =~= before_text + NEWLINE@ + release@);
            if let Some(l) = link {
                derived.push(l);
                assert(derived.deep_view() =~= before_links.push(l@));
            }
            i = i + 1;
        }
        Ok(derived)
    }

    /// Puts those link definitions of the text that are kept at the end
    /// of `out`, and tells whether there was any.
    fn render_kept_links(&self, out: &mut String) -> (any: bool)
        ensures
            (final(out)@, any) == kept_links_text(self@.links, 0, old(out)@, false),
    {
        let mut anchors: Vec<String> = Vec::new();
        let mut a: usize = 0;
        while a < self.links.len()
            invariant
                a <= self.links.len(),
                anchors.len() == a,
                forall|j: int| 0 <= j < a ==> (#[trigger] anchors[j])@ == self@.links[j].anchor,
            decreases self.links.len() - a,
        {
            anchors.push(self.links[a].anchor.clone());
            a = a + 1;
        }
        let version_like = is_match_each(TAG_PATTERN, &anchors);
        let mut any = false;
        let mut k: usize = 0;
        while k < self.links.len()
            invariant
                k <= self.links.len(),
                version_like.len() == self.links.len(),
                forall|j: int|
                    0 <= j < self.links.len() ==> #[trigger] version_like[j] == regex_is_match(
                        TAG_PATTERN@,
                        self@.links[j].anchor,
                    ),
                kept_links_text(self@.links, k as int, out@, any) == kept_links_text(
                    self@.links,
                    0,
                    old(out)@,
                    false,
                ),
            decreases self.links.len() - k,
        {
            let link = &self.links[k];
            if keeps_link(link, version_like[k]) {
                let ghost before = out@;
                out.append(NEWLINE);
                out.append(link.render().as_str());
                assert(out@ =~= before + NEWLINE@ + link_text(link@));
                any = true;
            }
            k = k + 1;
        }
        any
    }

    /// The changelog as it is written.
    ///
    /// Fails where a link is due and the URL of the repository is
    /// missing, and where a release has a version without a date or a
    /// date without a version.
    pub fn render(&self) -> (r: Result<String, RenderError>)
        ensures
            rendered_view(r) == changelog_text(self@),
    {
        if !accepts(TAG_PATTERN) {
            return Err(RenderError::InvalidPattern);
        }
        let mut out = self.render_top();
        let derived = match self.render_releases(&mut out) {
            Ok(links) => links,
            Err(e) => {
                return Err(e);
            },
        };
        out.append(NEWLINE);
        let any = self.render_kept_links(&mut out);
        if any {
            out.append(NEWLINE);
        }
        render_links(&mut out, &derived);
        let ghost linked = out@;
        if let Some(footer) = &self.footer {
            out.append(NEWLINE);
            out.append(RULE);
            out.append(NEWLINE);
            out.append(footer.as_str());
            out.append(NEWLINE);
        }
        out.append(NEWLINE);
        assert(out@ =~= linked + bottom_text(self@));
        Ok(out)
    }
}

/// Puts the link definitions `links` at the end of `out`, each on a line
/// of its own.
fn render_links(out: &mut String, links: &Vec<Link>)
    ensures
        final(out)@ == links_text(links.deep_view(), 0, old(out)@),
{
    let mut d: usize = 0;
    while d < links.len()
        invariant
            d <= links.len(),
            links_text(links.deep_view(), d as int, out@) == links_text(
                links.deep_view(),
                0,
                old(out)@,
            ),
        decreases links.len() - d,
    {
        let ghost before = out@;
        out.append(NEWLINE);
        out.append(links[d].render().as_str());
        assert(out@ =~= before + NEWLINE@ + link_text(links.deep_view()[d as int]));
        d = d + 1;
    }
}

/// The link definitions `acc` followed by those that the lines from index
/// `i` on write; an error where a line writes none.
pub open spec fn links_of(lines: Seq<Seq<char>>, i: int, acc: Seq<LinkView>) -> Result<
    Seq<LinkView>,
    LinkError,
>
    decreases lines.len() - i,
{
    if i < 0 || i >= lines.len() {
        Ok(acc)
    } else {
        match link_of(lines[i]) {
            Ok(link) => links_of(lines, i + 1, acc.push(link)),
            Err(e) => Err(e),
        }
    }
}

/// Puts a changelog together field by field.
#[derive(Debug, Clone)]
pub struct ChangelogBuilder {
    pub changelog: Changelog,
}

impl View for ChangelogBuilder {
    type V = ChangelogView;

    open spec fn view(&self) -> ChangelogView {
        self.changelog@
    }
}

impl Default for ChangelogBuilder {
    /// A builder that starts from the changelog without anything of its
    /// own.
    fn default() -> (b: ChangelogBuilder)
        ensures
            b@ == ChangelogView::empty(),
    {
        ChangelogBuilder::new()
    }
}

impl ChangelogBuilder {
    /// A builder that starts from the changelog without anything of its
    /// own.
    pub fn new() -> (b: ChangelogBuilder)
        ensures
            b@ == ChangelogView::empty(),
    {
        ChangelogBuilder { changelog: Changelog::new() }
    }

    /// The ref that stands for the changes not yet released where none is
    /// given.
    pub fn default_head(&self) -> (head: String)
        ensures
            head@ == DEFAULT_HEAD@,
    {
        DEFAULT_HEAD.to_string()
    }

    /// Sets the content of the flag comment at the top.
    pub fn flag(&mut self, flag: Option<String>) -> (b: &mut Self)
        ensures
            b@ == (ChangelogView { flag: flag.deep_view(), ..old(self)@ }),
            *final(self) == *final(b),
    {
        self.changelog.flag = flag;
        self
    }

    /// Sets the title.
    pub fn title(&mut self, title: Option<String>) -> (b: &mut Self)
        ensures
            b@ == (ChangelogView { title: title.deep_view(), ..old(self)@ }),
            *final(self) == *final(b),
    {
        self.changelog.title = title;
        self
    }

    /// Sets the description under the title.
    pub fn description(&mut self, description: Option<String>) -> (b: &mut Self)
        ensures
            b@ == (ChangelogView { description: description.deep_view(), ..old(self)@ }),
            *final(self) == *final(b),
    {
        self.changelog.description = description;
        self
    }

    /// Sets the ref that stands for the changes not yet released.
    pub fn head(&mut self, head: String) -> (b: &mut Self)
        ensures
            b@ == (ChangelogView { head: head@, ..old(self)@ }),
            *final(self) == *final(b),
    {
        self.changelog.head = head;
        self
    }

    /// Sets the text after the horizontal rule at the end.
    pub fn footer(&mut self, footer: Option<String>) -> (b: &mut Self)
        ensures
            b@ == (ChangelogView { footer: footer.deep_view(), ..old(self)@ }),
            *final(self) == *final(b),
    {
        self.changelog.footer = footer;
        self
    }

    /// Sets the URL of the repository.
    pub fn url(&mut self, url: Option<String>) -> (b: &mut Self)
        ensures
            b@ == (ChangelogView { url: url.deep_view(), ..old(self)@ }),
            *final(self) == *final(b),
    {
        self.changelog.url = url;
        self
    }

    /// Sets what stands before a version in the name of its tag.
    pub fn tag_prefix(&mut self, tag_prefix: Option<String>) -> (b: &mut Self)
        ensures
            b@ == (ChangelogView { tag_prefix: tag_prefix.deep_view(), ..old(self)@ }),
            *final(self) == *final(b),
    {
        self.changelog.tag_prefix = tag_prefix;
        self
    }

    /// Sets the releases, in the order of a changelog.
    pub fn releases(&mut self, releases: Vec<Release>) -> (b: &mut Self)
        ensures
            b@ == (ChangelogView {
                releases: sorted_releases(releases.deep_view()),
                ..old(self)@
            }),
            *final(self) == *final(b),
    {
        self.changelog.releases = releases;
        self.sort_releases()
    }

    /// Puts the releases in the order of a changelog.
    pub fn sort_releases(&mut self) -> (b: &mut Self)
        ensures
            b@ == (ChangelogView { releases: sorted_releases(old(self)@.releases), ..old(self)@ }),
            *final(self) == *final(b),
    {
        self.changelog.sort_releases();
        self
    }

    /// Sets the link definitions to those that the lines `links` write.
    /// A line that writes none is an error and leaves the builder as it
    /// was.
    pub fn links(&mut self, links: Vec<String>) -> (r: Result<&mut Self, LinkError>)
        ensures
            match links_of(links.deep_view(), 0, Seq::<LinkView>::empty()) {
                Ok(parsed) => r matches Ok(b) && b@ == (ChangelogView {
                    links: parsed,
                    ..old(self)@
                }) && *final(self) == *final(b),
                Err(e) => r matches Err(f) && f == e && final(self)@ == old(self)@,
            },
    {
        let mut parsed: Vec<Link> = Vec::new();
        assert(parsed.deep_view() =~= Seq::<LinkView>::empty());
        let mut i: usize = 0;
        while i < links.len()
            invariant
                i <= links.len(),
                *self == *old(self),
                links_of(links.deep_view(), i as int, parsed.deep_view()) == links_of(
                    links.deep_view(),
                    0,
                    Seq::<LinkView>::empty(),
                ),
            decreases links.len() - i,
        {
            match Link::parse(links[i].clone()) {
                Ok(link) => {
                    let ghost before = parsed.deep_view();
                    parsed.push(link);
                    assert(parsed.deep_view() =~= before.push(link@));
                },
                Err(e) => {
                    return Err(e);
                },
            }
            i = i + 1;
        }
        self.changelog.links = parsed;
        Ok(self)
    }

    /// The changelog put together.
    pub fn build(&self) -> (c: Changelog)
        ensures
            c@ == self@,
    {
        self.changelog.copy()
    }
}

impl Release {
    /// The link of this release in `changelog`: the one of the first
    /// release of the changelog that equals this one.
    pub fn compare_link(&self, changelog: &Changelog) -> (r: Result<Option<Link>, RenderError>)
        ensures
            match release_from(changelog@.releases, self@, 0) {
                Some(i) => derived_view(r) == link_at(changelog@, i),
                None => r == Err::<Option<Link>, RenderError>(RenderError::ReleaseNotFound),
            },
    {
        let mut i: usize = 0;
        while i < changelog.releases.len()
            invariant
                i <= changelog.releases.len(),
                release_from(changelog@.releases, self@, i as int) == release_from(
                    changelog@.releases,
                    self@,
                    0,
                ),
            decreases changelog.releases.len() - i,
        {
            if changelog.releases[i].same(self) {
                return changelog.link_of_release(i);
            }
            i = i + 1;
        }
        Err(RenderError::ReleaseNotFound)
    }
}

} // verus!
