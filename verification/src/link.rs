//! Link definitions: an anchor in square brackets and the URL it stands
//! for.

use crate::consts::LINK_SEPARATOR;
use crate::text::{
    chars_of, find_sub, first_occurrence, occurs_at, remove_chars, string_of_range, without_chars,
};
use vstd::prelude::*;

verus! {

/// A link definition.
#[derive(Debug, Clone, PartialEq, Eq)]
pub struct Link {
    pub anchor: String,
    pub url: String,
}

/// A [`Link`] as plain values.
pub struct LinkView {
    pub anchor: Seq<char>,
    pub url: Seq<char>,
}

impl DeepView for Link {
    type V = LinkView;

    open spec fn deep_view(&self) -> LinkView {
        LinkView { anchor: self.anchor@, url: self.url@ }
    }
}

impl View for Link {
    type V = LinkView;

    open spec fn view(&self) -> LinkView {
        self.deep_view()
    }
}

/// Why a line is no link definition.
#[derive(Debug, Clone, Copy, PartialEq, Eq, Structural)]
pub enum LinkError {
    /// Nothing separates an anchor from a URL.
    MissingUrl,
}

/// The link definition that `line` writes, cut at the first separator at
/// index `at`: the anchor is what stands before it, without square
/// brackets, and the URL is what stands after it.
pub open spec fn link_cut_at(line: Seq<char>, at: int) -> LinkView {
    LinkView {
        anchor: without_chars(line.subrange(0, at), '[', ']'),
        url: line.subrange(at + LINK_SEPARATOR@.len(), line.len() as int),
    }
}

/// The link definition that `line` writes, cut at its first separator; a
/// line without separator writes none.
pub open spec fn link_of(line: Seq<char>) -> Result<LinkView, LinkError> {
    match first_occurrence(line, LINK_SEPARATOR@) {
        Some(at) => Ok(link_cut_at(line, at)),
        None => Err(LinkError::MissingUrl),
    }
}

/// The outcome of reading a link definition as plain values.
pub open spec fn link_view(r: Result<Link, LinkError>) -> Result<LinkView, LinkError> {
    match r {
        Ok(link) => Ok(link@),
        Err(e) => Err(e),
    }
}

/// The text of a link definition: the anchor in square brackets, a colon, a
/// space and the URL.
pub open spec fn link_text(link: LinkView) -> Seq<char> {
    seq!['['] + link.anchor + seq![']', ':', ' '] + link.url
}

impl Link {
    /// Reads a link definition: an anchor and a URL with a colon and a
    /// space between them. Square brackets are taken out of the anchor.
    /// A line without colon and space is an error.
    pub fn parse(line: String) -> (r: Result<Link, LinkError>)
        ensures
            link_view(r) == link_of(line@),
    {
        match find_sub(line.as_str(), LINK_SEPARATOR) {
            None => Err(LinkError::MissingUrl),
            Some(at) => {
                let v = chars_of(line.as_str());
                let width = LINK_SEPARATOR.unicode_len();
                assert(occurs_at(line@, LINK_SEPARATOR@, at as int));
                let before = string_of_range(&v, 0, at);
                let anchor = remove_chars(before.as_str(), '[', ']');
                let url = string_of_range(&v, at + width, v.len());
                let link = Link { anchor, url };
                assert(link@ == link_cut_at(line@, at as int));
                Ok(link)
            },
        }
    }

    /// The link definition as text.
    pub fn render(&self) -> (s: String)
        ensures
            s@ == link_text(self@),
    {
        let mut s = String::new();
        s.append("[");
        s.append(self.anchor.as_str());
        s.append("]: ");
        s.append(self.url.as_str());
        proof {
            reveal_strlit("[");
            reveal_strlit("]: ");
            assert("["@ =~= seq!['[']);
            assert("]: "@ =~= seq![']', ':', ' ']);
            assert(s@ =~= link_text(self@));
        }
        s
    }

    /// A copy of the link definition.
    pub fn copy(&self) -> (link: Link)
        ensures
            link@ == self@,
    {
        Link { anchor: self.anchor.clone(), url: self.url.clone() }
    }
}

} // verus!
