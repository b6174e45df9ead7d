//! Semantic versions.
//!
//! A [`Version`] holds what the `semver` crate reads out of a version text:
//! three numbers, a pre-release tag and build metadata. Parsing is the
//! crate's; comparing and writing a version are done here on those parts.

use crate::text::{decimal, decimal_of};
use vstd::prelude::*;

verus! {

/// A semantic version.
#[derive(Debug, Clone, PartialEq, Eq)]
pub struct Version {
    pub major: u64,
    pub minor: u64,
    pub patch: u64,
    pub pre: String,
    pub build: String,
}

/// The parts of a [`Version`] as plain values.
pub struct VersionView {
    pub major: u64,
    pub minor: u64,
    pub patch: u64,
    pub pre: Seq<char>,
    pub build: Seq<char>,
}

impl DeepView for Version {
    type V = VersionView;

    open spec fn deep_view(&self) -> VersionView {
        VersionView {
            major: self.major,
            minor: self.minor,
            patch: self.patch,
            pre: self.pre@,
            build: self.build@,
        }
    }
}

impl View for Version {
    type V = VersionView;

    open spec fn view(&self) -> VersionView {
        self.deep_view()
    }
}

/// The version that `semver::Version::parse` reads from `text`, where it
/// accepts the text.
pub uninterp spec fn semver_parse(text: Seq<char>) -> Option<VersionView>;

/// The text of a version: the three numbers with dots between them, then
/// the pre-release tag after a hyphen and the build metadata after a plus
/// sign, each only where it is not empty.
pub open spec fn version_text(v: VersionView) -> Seq<char> {
    let numbers = decimal_of(v.major as nat) + seq!['.'] + decimal_of(v.minor as nat) + seq!['.']
        + decimal_of(v.patch as nat);
    let pre = if v.pre.len() > 0 {
        seq!['-'] + v.pre
    } else {
        Seq::<char>::empty()
    };
    let build = if v.build.len() > 0 {
        seq!['+'] + v.build
    } else {
        Seq::<char>::empty()
    };
    numbers + pre + build
}

/// Calls `semver::Version::parse` and copies the parts of the version it
/// read; `None` where the crate returns an error.
#[verifier::external_body]
fn parse_semver(text: &str) -> (r: Option<Version>)
    ensures
        r.deep_view() == semver_parse(text@),
{
    match semver::Version::parse(text) {
        Ok(v) => Some(
            Version {
                major: v.major,
                minor: v.minor,
                patch: v.patch,
                pre: v.pre.as_str().to_string(),
                build: v.build.as_str().to_string(),
            },
        ),
        Err(_) => None,
    }
}

impl Version {
    /// The version `major.minor.patch`, without pre-release tag or build
    /// metadata.
    pub fn new(major: u64, minor: u64, patch: u64) -> (v: Version)
        ensures
            v@ == (VersionView {
                major,
                minor,
                patch,
                pre: Seq::<char>::empty(),
                build: Seq::<char>::empty(),
            }),
    {
        Version { major, minor, patch, pre: String::new(), build: String::new() }
    }

    /// Reads a version from `text`; `None` where `text` is no semantic
    /// version.
    pub fn parse(text: &str) -> (r: Option<Version>)
        ensures
            r.deep_view() == semver_parse(text@),
    {
        parse_semver(text)
    }

    /// Whether the two versions have the same parts.
    pub fn same(&self, other: &Version) -> (b: bool)
        ensures
            b == (self@ == other@),
    {
        self.major == other.major && self.minor == other.minor && self.patch == other.patch
            && self.pre == other.pre && self.build == other.build
    }

    /// A copy of the version.
    pub fn copy(&self) -> (v: Version)
        ensures
            v@ == self@,
    {
        Version {
            major: self.major,
            minor: self.minor,
            patch: self.patch,
            pre: self.pre.clone(),
            build: self.build.clone(),
        }
    }

    /// The version as text, such as `1.2.3-rc.1+build.5`.
    pub fn render(&self) -> (s: String)
        ensures
            s@ == version_text(self@),
    {
        let mut s = decimal(self.major);
        s.append(".");
        s.append(decimal(self.minor).as_str());
        s.append(".");
        s.append(decimal(self.patch).as_str());
        let ghost numbers = s@;
        proof {
            reveal_strlit(".");
            assert("."@ =~= seq!['.']);
        }
        if self.pre.as_str().unicode_len() > 0 {
            s.append("-");
            s.append(self.pre.as_str());
            proof {
                reveal_strlit("-");
                assert(s@ =~= numbers + (seq!['-'] + self.pre@));
            }
        } else {
            assert(s@ =~= numbers + Seq::<char>::empty());
        }
        let ghost with_pre = s@;
        if self.build.as_str().unicode_len() > 0 {
            s.append("+");
            s.append(self.build.as_str());
            proof {
                reveal_strlit("+");
                assert(s@ =~= with_pre + (seq!['+'] + self.build@));
            }
        } else {
            assert(s@ =~= with_pre + Seq::<char>::empty());
        }
        s
    }
}

} // verus!
