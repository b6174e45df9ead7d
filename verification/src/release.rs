//! Releases: one entry of a changelog, with its version, date and changes.

use crate::changes::{ChangeKind, Changes, ChangesView, UnknownChangeKind, changes_text, kind_of};
use crate::consts::{HEADING2_DATE, HEADING2_OPEN, HEADING2_UNRELEASED, NEWLINE, YANKED_MARK};
use crate::date::{Date, date_comes_before, date_text, optional_date_before};
use crate::error::RenderError;
use crate::text::{copy_optional_text, same_lines, same_optional_text};
use crate::version::{Version, VersionView, version_text};
use vstd::prelude::*;

verus! {

/// A release. The entry for the changes that are not yet released has
/// neither version nor date.
#[derive(Debug, Clone, PartialEq, Eq)]
pub struct Release {
    pub version: Option<Version>,
    pub yanked: bool,
    pub description: Option<String>,
    pub date: Option<Date>,
    pub changes: Changes,
}

/// A [`Release`] as plain values.
pub struct ReleaseView {
    pub version: Option<VersionView>,
    pub yanked: bool,
    pub description: Option<Seq<char>>,
    pub date: Option<Date>,
    pub changes: ChangesView,
}

impl ReleaseView {
    /// The release without version, date, description or changes.
    pub open spec fn empty() -> ReleaseView {
        ReleaseView {
            version: None,
            yanked: false,
            description: None,
            date: None,
            changes: ChangesView::empty(),
        }
    }

    /// Whether this is the entry for the changes that are not yet
    /// released: it has neither version nor date.
    pub open spec fn is_unreleased(self) -> bool {
        self.version is None && self.date is None
    }
}

impl DeepView for Release {
    type V = ReleaseView;

    open spec fn deep_view(&self) -> ReleaseView {
        ReleaseView {
            version: self.version.deep_view(),
            yanked: self.yanked,
            description: self.description.deep_view(),
            date: self.date,
            changes: self.changes@,
        }
    }
}

impl View for Release {
    type V = ReleaseView;

    open spec fn view(&self) -> ReleaseView {
        self.deep_view()
    }
}

/// The mark of a withdrawn release, where `yanked` is set.
pub open spec fn yanked_text(yanked: bool) -> Seq<char> {
    if yanked {
        YANKED_MARK@
    } else {
        Seq::<char>::empty()
    }
}

/// The description of a release on a line of its own, where there is one.
pub open spec fn description_text(description: Option<Seq<char>>) -> Seq<char> {
    match description {
        Some(text) => text + NEWLINE@,
        None => Seq::<char>::empty(),
    }
}

/// The heading of a release: version and date of a dated release, the
/// word "Unreleased" for the entry without version and date. A release
/// with only one of the two has no heading.
pub open spec fn heading_text(r: ReleaseView) -> Result<Seq<char>, RenderError> {
    match (r.version, r.date) {
        (Some(version), Some(date)) => Ok(
            HEADING2_OPEN@ + version_text(version) + HEADING2_DATE@ + date_text(date)
                + yanked_text(r.yanked) + NEWLINE@,
        ),
        (None, None) => Ok(HEADING2_UNRELEASED@ + yanked_text(r.yanked) + NEWLINE@),
        _ => Err(RenderError::InconsistentReleaseDateVersion),
    }
}

/// A release as it is written: its heading, its description and its
/// changes.
pub open spec fn release_text(r: ReleaseView) -> Result<Seq<char>, RenderError> {
    match heading_text(r) {
        Ok(heading) => Ok(heading + description_text(r.description) + changes_text(r.changes)),
        Err(e) => Err(e),
    }
}

/// The outcome of writing as plain values.
pub open spec fn rendered_view(r: Result<String, RenderError>) -> Result<Seq<char>, RenderError> {
    match r {
        Ok(text) => Ok(text@),
        Err(e) => Err(e),
    }
}

impl Release {
    /// The release without version, date, description or changes: the
    /// entry for the changes that are not yet released.
    pub fn new() -> (r: Release)
        ensures
            r@ == ReleaseView::empty(),
    {
        Release {
            version: None,
            yanked: false,
            description: None,
            date: None,
            changes: Changes::new(),
        }
    }

    /// A builder that starts from the release without version, date,
    /// description or changes.
    pub fn builder() -> (b: ReleaseBuilder)
        ensures
            b@ == ReleaseView::empty(),
    {
        ReleaseBuilder { release: Release::new() }
    }

    /// The version; none for the changes not yet released.
    pub fn version(&self) -> (r: &Option<Version>)
        ensures
            r.deep_view() == self@.version,
    {
        &self.version
    }

    /// Whether the release was withdrawn.
    pub fn yanked(&self) -> (r: bool)
        ensures
            r == self@.yanked,
    {
        self.yanked
    }

    /// The text before the changes.
    pub fn description(&self) -> (r: &Option<String>)
        ensures
            r.deep_view() == self@.description,
    {
        &self.description
    }

    /// The date; none for the changes not yet released.
    pub fn date(&self) -> (r: &Option<Date>)
        ensures
            *r == self@.date,
    {
        &self.date
    }

    /// The changes, by kind.
    pub fn changes(&self) -> (r: &Changes)
        ensures
            r@ == self@.changes,
    {
        &self.changes
    }

    /// Whether this is the entry for the changes that are not yet
    /// released.
    pub fn is_unreleased(&self) -> (b: bool)
        ensures
            b == self@.is_unreleased(),
    {
        self.version.is_none() && self.date.is_none()
    }

    /// Whether this release comes before `other` by date; a release
    /// without date comes before every dated one.
    pub fn before(&self, other: &Release) -> (b: bool)
        ensures
            b == optional_date_before(self@.date, other@.date),
    {
        date_comes_before(&self.date, &other.date)
    }

    /// Takes all changes out of the release.
    pub fn empty_changes(&mut self)
        ensures
            final(self)@ == (ReleaseView { changes: ChangesView::empty(), ..old(self)@ }),
    {
        self.changes = Changes::new();
    }

    /// Whether the two releases hold the same values.
    pub fn same(&self, other: &Release) -> (b: bool)
        ensures
            b == (self@ == other@),
    {
        let versions = match (&self.version, &other.version) {
            (None, None) => true,
            (Some(x), Some(y)) => x.same(y),
            _ => false,
        };
        let dates = match (&self.date, &other.date) {
            (None, None) => true,
            (Some(x), Some(y)) => x.year == y.year && x.month == y.month && x.day == y.day,
            _ => false,
        };
        versions && dates && self.yanked == other.yanked && same_optional_text(
            &self.description,
            &other.description,
        ) && same_lines(&self.changes.added, &other.changes.added) && same_lines(
            &self.changes.changed,
            &other.changes.changed,
        ) && same_lines(&self.changes.deprecated, &other.changes.deprecated) && same_lines(
            &self.changes.removed,
            &other.changes.removed,
        ) && same_lines(&self.changes.fixed, &other.changes.fixed) && same_lines(
            &self.changes.security,
            &other.changes.security,
        )
    }

    /// A copy of the release.
    pub fn copy(&self) -> (r: Release)
        ensures
            r@ == self@,
    {
        Release {
            version: match &self.version {
                Some(v) => Some(v.copy()),
                None => None,
            },
            yanked: self.yanked,
            description: copy_optional_text(&self.description),
            date: self.date,
            changes: self.changes.copy(),
        }
    }

    /// The release as it is written. A release that has a version without
    /// a date, or a date without a version, cannot be written.
    pub fn render(&self) -> (r: Result<String, RenderError>)
        ensures
            rendered_view(r) == release_text(self@),
    {
        let mut out = String::new();
        match (&self.version, &self.date) {
            (Some(version), Some(date)) => {
                out.append(HEADING2_OPEN);
                out.append(version.render().as_str());
                out.append(HEADING2_DATE);
                out.append(date.render().as_str());
            },
            (None, None) => {
                out.append(HEADING2_UNRELEASED);
            },
            _ => {
                return Err(RenderError::InconsistentReleaseDateVersion);
            },
        }
        if self.yanked {
            out.append(YANKED_MARK);
        }
        out.append(NEWLINE);
        if let Some(description) = &self.description {
            out.append(description.as_str());
            out.append(NEWLINE);
        }
        out.append(self.changes.render().as_str());
        proof {
            let heading = heading_text(self@)->Ok_0;
            assert(out@ =~= heading + description_text(self@.description) + changes_text(
                self@.changes,
            ));
        }
        Ok(out)
    }
}

/// Puts a release together field by field.
#[derive(Debug, Clone)]
pub struct ReleaseBuilder {
    release: Release,
}

impl View for ReleaseBuilder {
    type V = ReleaseView;

    closed spec fn view(&self) -> ReleaseView {
        self.release@
    }
}

impl Default for ReleaseBuilder {
    /// A builder that starts from the release without version, date,
    /// description or changes.
    fn default() -> (b: ReleaseBuilder)
        ensures
            b@ == ReleaseView::empty(),
    {
        ReleaseBuilder::new()
    }
}

impl ReleaseBuilder {
    /// A builder that starts from the release without version, date,
    /// description or changes.
    pub fn new() -> (b: ReleaseBuilder)
        ensures
            b@ == ReleaseView::empty(),
    {
        ReleaseBuilder { release: Release::new() }
    }

    /// Sets the version.
    pub fn version(&mut self, version: Version) -> (b: &mut Self)
        ensures
            b@ == (ReleaseView { version: Some(version@), ..old(self)@ }),
            *final(self) == *final(b),
    {
        self.release.version = Some(version);
        self
    }

    /// Sets the date.
    pub fn date(&mut self, date: Date) -> (b: &mut Self)
        ensures
            b@ == (ReleaseView { date: Some(date), ..old(self)@ }),
            *final(self) == *final(b),
    {
        self.release.date = Some(date);
        self
    }

    /// Sets whether the release was withdrawn.
    pub fn yanked(&mut self, yanked: bool) -> (b: &mut Self)
        ensures
            b@ == (ReleaseView { yanked, ..old(self)@ }),
            *final(self) == *final(b),
    {
        self.release.yanked = yanked;
        self
    }

    /// Sets the text before the changes.
    pub fn description(&mut self, description: Option<String>) -> (b: &mut Self)
        ensures
            b@ == (ReleaseView { description: description.deep_view(), ..old(self)@ }),
            *final(self) == *final(b),
    {
        self.release.description = description;
        self
    }

    /// Sets the changes.
    pub fn changes(&mut self, changes: Changes) -> (b: &mut Self)
        ensures
            b@ == (ReleaseView { changes: changes@, ..old(self)@ }),
            *final(self) == *final(b),
    {
        self.release.changes = changes;
        self
    }

    /// Adds the entry `change` to the changes of the kind that `kind`
    /// names, in whatever case. A name of no kind is an error and leaves
    /// the builder as it was.
    pub fn add_change(&mut self, kind: String, change: String) -> (r: Result<
        &mut Self,
        UnknownChangeKind,
    >)
        ensures
            match kind_of(kind@) {
                Ok(k) => r matches Ok(b) && b@ == (ReleaseView {
                    changes: old(self)@.changes.with(k, change@),
                    ..old(self)@
                }) && *final(self) == *final(b),
                Err(e) => r is Err && final(self)@ == old(self)@,
            },
    {
        match ChangeKind::from_str(kind.as_str()) {
            Ok(k) => {
                self.release.changes.add(k, change);
                Ok(self)
            },
            Err(e) => Err(e),
        }
    }

    /// The release put together.
    pub fn build(&self) -> (r: Release)
        ensures
            r@ == self@,
    {
        self.release.copy()
    }
}

} // verus!
