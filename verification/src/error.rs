//! The errors of tokenizing, parsing and rendering.

use vstd::prelude::*;

verus! {

/// Why a text could not be cut into tokens.
#[derive(Debug, Clone, Copy, PartialEq, Eq, Structural)]
pub enum TokenizeError {
    /// The label of a link definition stands alone on line `line` and the
    /// next line does not continue it with a target.
    MalformedLinkContinuation { line: usize },
    /// One of the patterns that recognise lines is not a regular expression.
    InvalidPattern,
}

/// Why a text is no changelog. `line` is the line of the offending token,
/// and 0 where the text ended too early.
#[derive(Debug, Clone, Copy, PartialEq, Eq, Structural)]
pub enum ParseError {
    /// The text could not be cut into tokens.
    Tokenize(TokenizeError),
    /// A token that the format requires is missing or empty.
    MissingRequiredToken { line: usize },
    /// The heading of a release is neither that of a dated release nor
    /// that of the unreleased changes.
    UnrecognizedRelease { line: usize },
    /// The version in the heading of a release is no semantic version.
    UnparsableVersion { line: usize },
    /// The date in the heading of a release is no calendar date.
    UnparsableDate { line: usize },
    /// The heading of a group of changes names no kind of change.
    UnknownChangeKind { line: usize },
    /// A link definition has no target.
    MalformedLink { line: usize },
    /// Tokens are left after the end of the changelog.
    UnexpectedTrailingTokens { line: usize },
    /// One of the patterns that recognise headings and links is not a
    /// regular expression.
    InvalidPattern,
}

/// Why a changelog could not be written.
#[derive(Debug, Clone, Copy, PartialEq, Eq, Structural)]
pub enum RenderError {
    /// A link to the repository is due and the changelog has no
    /// repository URL.
    MissingRepositoryUrl,
    /// A release has a version without a date, or a link is due for a
    /// release without a version.
    InconsistentReleaseDateVersion,
    /// The release is not among the releases of the changelog.
    ReleaseNotFound,
    /// The pattern that recognises version anchors is not a regular
    /// expression.
    InvalidPattern,
}

/// A pattern is not a regular expression.
#[derive(Debug, Clone, Copy, PartialEq, Eq, Structural)]
pub struct InvalidPattern;

/// Why a changelog is not ready for a release.
#[derive(Debug, Clone, Copy, PartialEq, Eq, Structural)]
pub enum SanityError {
    /// The newest release with a version is not the release of the given
    /// version on the given date.
    ReleaseAbsent,
    /// The newest release with a version has no date.
    MissingDate,
    /// The link of a release could not be derived.
    Link(RenderError),
    /// A release has no link.
    MissingLink,
}

} // verus!
