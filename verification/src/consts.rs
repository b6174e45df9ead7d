//! The fixed texts of the changelog format.

use vstd::prelude::*;

verus! {

/// The description written where a changelog has none of its own.
pub const CHANGELOG_DESCRIPTION: &'static str =
    "All notable changes to this project will be documented in this file.\nThe format is based on [Keep a Changelog](https://keepachangelog.com/)\nand this project adheres to [Semantic Versioning](https://semver.org/).";

/// The title written where a changelog has none of its own.
pub const CHANGELOG_TITLE: &'static str = "Changelog";

/// The ref that stands for the changes not yet released.
pub const DEFAULT_HEAD: &'static str = "HEAD";

/// The anchor of the link for the changes not yet released.
pub const UNRELEASED: &'static str = "Unreleased";

/// What a horizontal rule begins with.
pub const PREFIX_HR: &'static str = "---";

/// What a first-level heading begins with.
pub const PREFIX_H1: &'static str = "# ";

/// What a second-level heading begins with.
pub const PREFIX_H2: &'static str = "## ";

/// What a third-level heading begins with.
pub const PREFIX_H3: &'static str = "### ";

/// What a list item begins with.
pub const PREFIX_LI: &'static str = "-";

/// What a list item may begin with instead.
pub const PREFIX_LI2: &'static str = "*";

/// A link definition with its target on the same line.
pub const LINK_PATTERN: &'static str = "^\\[.*\\]\\:\\s*http.*$";

/// The label of a link definition alone on its line.
pub const LINK_LABEL_PATTERN: &'static str = "^\\[.*\\]\\:$";

/// A line that is one HTML comment.
pub const COMMENT_PATTERN: &'static str = "^<!--(.*)-->$";

/// A line that continues a link label with its target.
pub const LINK_TARGET_PATTERN: &'static str = "\\s+http.*$";

/// The indentation of a line that continues a list item.
pub const INDENT_PATTERN: &'static str = "^\\s\\s";

/// The heading of a release that is not yet released.
pub const UNRELEASED_PATTERN: &'static str = "\\[?([^\\]]+)\\]?\\s*-\\s*unreleased(\\s+\\[yanked\\])?$";

/// The heading of a release with its version and date.
pub const RELEASE_PATTERN: &'static str =
    "\\[?([^\\]]+)\\]?\\s*-\\s*([\\d]{4}-[\\d]{1,2}-[\\d]{1,2})(\\s+\\[yanked\\])?$";

/// A link definition whose target compares two refs of a repository.
pub const COMPARE_LINK_PATTERN: &'static str = "^\\[.*\\]\\:\\s*(http.*?)\\/(?:-\\/)?compare\\/.*$";

/// An anchor that looks like a version.
pub const TAG_PATTERN: &'static str = "\\d+\\.\\d+\\.\\d+((-rc|-x)\\.\\d+)?";

/// The format of the date in a release heading.
pub const DATE_FORMAT: &'static str = "%Y-%m-%d";

/// The start of the URL of a repository on GitHub.
pub const GITHUB_URL: &'static str = "https://github.com";

/// The path of a release under the URL of a repository on GitHub.
pub const GITHUB_RELEASE_PATH: &'static str = "/releases/tag/";

/// The path of a tag under the URL of a repository hosted elsewhere.
pub const TAG_PATH: &'static str = "/-/tags/";

/// The path of a comparison under the URL of a repository.
pub const COMPARE_PATH: &'static str = "/compare/";

/// What stands between the two refs of a comparison.
pub const COMPARE_DOTS: &'static str = "...";

/// What separates the lines of a token.
pub const NEWLINE: &'static str = "\n";

/// The mark of a list item.
pub const ITEM_MARK: &'static str = "- ";

/// What separates the anchor of a link definition from its target.
pub const LINK_SEPARATOR: &'static str = ": ";

/// What a heading of a kind of change begins with.
pub const HEADING3: &'static str = "### ";

/// The indentation of the lines that continue a list item.
pub const ITEM_INDENT: &'static str = "  ";

/// The title of the section of what was added.
pub const TITLE_ADDED: &'static str = "Added";

/// The title of the section of what was changed.
pub const TITLE_CHANGED: &'static str = "Changed";

/// The title of the section of what was deprecated.
pub const TITLE_DEPRECATED: &'static str = "Deprecated";

/// The title of the section of what was removed.
pub const TITLE_REMOVED: &'static str = "Removed";

/// The title of the section of what was fixed.
pub const TITLE_FIXED: &'static str = "Fixed";

/// The title of the section of what concerns security.
pub const TITLE_SECURITY: &'static str = "Security";

/// The name of the kind of what was added, in lower case.
pub const NAME_ADDED: &'static str = "added";

/// The name of the kind of what was changed, in lower case.
pub const NAME_CHANGED: &'static str = "changed";

/// The name of the kind of what was deprecated, in lower case.
pub const NAME_DEPRECATED: &'static str = "deprecated";

/// The name of the kind of what was removed, in lower case.
pub const NAME_REMOVED: &'static str = "removed";

/// The name of the kind of what was fixed, in lower case.
pub const NAME_FIXED: &'static str = "fixed";

/// The name of the kind of what concerns security, in lower case.
pub const NAME_SECURITY: &'static str = "security";

/// What a heading of a release begins with, up to its version.
pub const HEADING2_OPEN: &'static str = "## [";

/// What stands between the version and the date in the heading of a
/// release.
pub const HEADING2_DATE: &'static str = "] - ";

/// The heading of the changes that are not yet released.
pub const HEADING2_UNRELEASED: &'static str = "## [Unreleased]";

/// The mark of a release that was withdrawn.
pub const YANKED_MARK: &'static str = " [YANKED]";

/// What a flag comment begins with.
pub const COMMENT_OPEN: &'static str = "<!-- ";

/// What a flag comment ends with.
pub const COMMENT_CLOSE: &'static str = " -->";

/// What a first-level heading begins with.
pub const HEADING1: &'static str = "# ";

/// A horizontal rule.
pub const RULE: &'static str = "---";

/// The word that marks the heading of the changes not yet released, in
/// lower case.
pub const UNRELEASED_WORD: &'static str = "unreleased";

/// The mark of a withdrawn release in a heading, in lower case.
pub const YANKED_WORD: &'static str = "[yanked]";

/// The URL of a remote that is reached over SSH.
pub const SSH_REMOTE_PATTERN: &'static str = "git@(.+):(.+)\\.git";

/// The URL over HTTPS of a remote that is reached over SSH.
pub const HTTPS_REMOTE: &'static str = "https://$1/$2";

/// The tag among the refs of a commit.
pub const GIT_TAG_PATTERN: &'static str = "/tag: ([\\w\\d\\-_.]+)/i";

} // verus!
