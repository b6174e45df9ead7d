//! The changes of a release, by kind.

use crate::consts::{
    HEADING3, ITEM_INDENT, ITEM_MARK, NAME_ADDED, NAME_CHANGED, NAME_DEPRECATED, NAME_FIXED,
    NAME_REMOVED, NAME_SECURITY, NEWLINE, TITLE_ADDED, TITLE_CHANGED, TITLE_DEPRECATED, TITLE_FIXED,
    TITLE_REMOVED, TITLE_SECURITY,
};
use crate::text::{
    copy_lines, join, join_with, lowercase_of, same_text, skip, skip_chars, split, split_on,
    to_lowercase, trim, trim_end, trim_end_of, trim_of,
};
use vstd::prelude::*;

verus! {

/// A kind of change.
#[derive(Debug, Clone, Copy, PartialEq, Eq, Hash, Structural)]
pub enum ChangeKind {
    Added,
    Changed,
    Deprecated,
    Removed,
    Fixed,
    Security,
}

/// The text names no kind of change.
#[derive(Debug, Clone, Copy, PartialEq, Eq, Structural)]
pub struct UnknownChangeKind;

/// The kind of change with the lower-case name `name`.
pub open spec fn kind_named(name: Seq<char>) -> Option<ChangeKind> {
    if name == NAME_ADDED@ {
        Some(ChangeKind::Added)
    } else if name == NAME_CHANGED@ {
        Some(ChangeKind::Changed)
    } else if name == NAME_DEPRECATED@ {
        Some(ChangeKind::Deprecated)
    } else if name == NAME_REMOVED@ {
        Some(ChangeKind::Removed)
    } else if name == NAME_FIXED@ {
        Some(ChangeKind::Fixed)
    } else if name == NAME_SECURITY@ {
        Some(ChangeKind::Security)
    } else {
        None
    }
}

/// The kind of change that `s` names, in whatever case it is written.
pub open spec fn kind_of(s: Seq<char>) -> Result<ChangeKind, UnknownChangeKind> {
    match kind_named(lowercase_of(s)) {
        Some(kind) => Ok(kind),
        None => Err(UnknownChangeKind),
    }
}

/// The title of the section of a kind of change.
pub open spec fn kind_title(kind: ChangeKind) -> Seq<char> {
    match kind {
        ChangeKind::Added => TITLE_ADDED@,
        ChangeKind::Changed => TITLE_CHANGED@,
        ChangeKind::Deprecated => TITLE_DEPRECATED@,
        ChangeKind::Removed => TITLE_REMOVED@,
        ChangeKind::Fixed => TITLE_FIXED@,
        ChangeKind::Security => TITLE_SECURITY@,
    }
}

impl ChangeKind {
    /// The kind of change with the lower-case name `name`.
    pub fn named(name: &str) -> (r: Option<ChangeKind>)
        ensures
            r == kind_named(name@),
    {
        if same_text(name, NAME_ADDED) {
            Some(ChangeKind::Added)
        } else if same_text(name, NAME_CHANGED) {
            Some(ChangeKind::Changed)
        } else if same_text(name, NAME_DEPRECATED) {
            Some(ChangeKind::Deprecated)
        } else if same_text(name, NAME_REMOVED) {
            Some(ChangeKind::Removed)
        } else if same_text(name, NAME_FIXED) {
            Some(ChangeKind::Fixed)
        } else if same_text(name, NAME_SECURITY) {
            Some(ChangeKind::Security)
        } else {
            None
        }
    }

    /// The kind of change that `s` names, in whatever case it is written.
    pub fn from_str(s: &str) -> (r: Result<ChangeKind, UnknownChangeKind>)
        ensures
            r == kind_of(s@),
    {
        match ChangeKind::named(to_lowercase(s).as_str()) {
            Some(kind) => Ok(kind),
            None => Err(UnknownChangeKind),
        }
    }

    /// The title of the section of this kind of change.
    pub fn title(&self) -> (s: &'static str)
        ensures
            s@ == kind_title(*self),
    {
        match self {
            ChangeKind::Added => TITLE_ADDED,
            ChangeKind::Changed => TITLE_CHANGED,
            ChangeKind::Deprecated => TITLE_DEPRECATED,
            ChangeKind::Removed => TITLE_REMOVED,
            ChangeKind::Fixed => TITLE_FIXED,
            ChangeKind::Security => TITLE_SECURITY,
        }
    }
}

/// The changes of a release: for each kind the entries in the order in
/// which they were added.
#[derive(Debug, Clone, PartialEq, Eq)]
pub struct Changes {
    pub added: Vec<String>,
    pub changed: Vec<String>,
    pub deprecated: Vec<String>,
    pub removed: Vec<String>,
    pub fixed: Vec<String>,
    pub security: Vec<String>,
}

/// [`Changes`] as plain values.
pub struct ChangesView {
    pub added: Seq<Seq<char>>,
    pub changed: Seq<Seq<char>>,
    pub deprecated: Seq<Seq<char>>,
    pub removed: Seq<Seq<char>>,
    pub fixed: Seq<Seq<char>>,
    pub security: Seq<Seq<char>>,
}

impl ChangesView {
    /// No changes of any kind.
    pub open spec fn empty() -> ChangesView {
        ChangesView {
            added: Seq::empty(),
            changed: Seq::empty(),
            deprecated: Seq::empty(),
            removed: Seq::empty(),
            fixed: Seq::empty(),
            security: Seq::empty(),
        }
    }

    /// The entries of the kind `kind`.
    pub open spec fn of(self, kind: ChangeKind) -> Seq<Seq<char>> {
        match kind {
            ChangeKind::Added => self.added,
            ChangeKind::Changed => self.changed,
            ChangeKind::Deprecated => self.deprecated,
            ChangeKind::Removed => self.removed,
            ChangeKind::Fixed => self.fixed,
            ChangeKind::Security => self.security,
        }
    }

    /// These changes with the entry `change` added at the end of those of
    /// the kind `kind`.
    pub open spec fn with(self, kind: ChangeKind, change: Seq<char>) -> ChangesView {
        match kind {
            ChangeKind::Added => ChangesView { added: self.added.push(change), ..self },
            ChangeKind::Changed => ChangesView { changed: self.changed.push(change), ..self },
            ChangeKind::Deprecated => ChangesView {
                deprecated: self.deprecated.push(change),
                ..self
            },
            ChangeKind::Removed => ChangesView { removed: self.removed.push(change), ..self },
            ChangeKind::Fixed => ChangesView { fixed: self.fixed.push(change), ..self },
            ChangeKind::Security => ChangesView { security: self.security.push(change), ..self },
        }
    }

    /// Whether there is no entry of any kind.
    pub open spec fn is_empty(self) -> bool {
        self.added.len() == 0 && self.changed.len() == 0 && self.deprecated.len() == 0
            && self.removed.len() == 0 && self.fixed.len() == 0 && self.security.len() == 0
    }
}

impl DeepView for Changes {
    type V = ChangesView;

    open spec fn deep_view(&self) -> ChangesView {
        ChangesView {
            added: self.added.deep_view(),
            changed: self.changed.deep_view(),
            deprecated: self.deprecated.deep_view(),
            removed: self.removed.deep_view(),
            fixed: self.fixed.deep_view(),
            security: self.security.deep_view(),
        }
    }
}

impl View for Changes {
    type V = ChangesView;

    open spec fn view(&self) -> ChangesView {
        self.deep_view()
    }
}

/// One line of an entry as it is written: the first line after the mark of
/// a list item, without white space around it; every other line indented by
/// two spaces, without white space at its end.
pub open spec fn entry_line(line: Seq<char>, first: bool) -> Seq<char> {
    let indented = trim_end_of(ITEM_INDENT@ + line);
    if first {
        ITEM_MARK@ + trim_of(skip_chars(indented, 1))
    } else {
        indented
    }
}

/// The lines of an entry as they are written.
pub open spec fn entry_lines(lines: Seq<Seq<char>>) -> Seq<Seq<char>> {
    Seq::new(lines.len(), |i: int| entry_line(lines[i], i == 0))
}

/// An entry as it is written: a list item whose further lines are
/// indented.
pub open spec fn entry_text(change: Seq<char>) -> Seq<char> {
    join_with(entry_lines(split_on(change, '\n')), NEWLINE@)
}

/// The entries `entries` as they are written, each ended by a line break.
pub open spec fn entries_text(entries: Seq<Seq<char>>) -> Seq<char>
    decreases entries.len(),
{
    if entries.len() == 0 {
        Seq::<char>::empty()
    } else {
        entries_text(entries.drop_last()) + entry_text(entries.last()) + NEWLINE@
    }
}

/// What separates a section from the one before it: an empty line where
/// `printed` tells that there is one before it, nothing otherwise.
pub open spec fn section_gap(printed: bool) -> Seq<char> {
    if printed {
        NEWLINE@
    } else {
        Seq::<char>::empty()
    }
}

/// The section of the entries `entries` under the title `title`; nothing
/// where there are no entries.
pub open spec fn section_text(printed: bool, title: Seq<char>, entries: Seq<Seq<char>>) -> Seq<
    char,
> {
    if entries.len() == 0 {
        Seq::<char>::empty()
    } else {
        section_gap(printed) + HEADING3@ + title + NEWLINE@ + entries_text(entries)
    }
}

/// The changes as they are written: one section for each kind that has
/// entries, in the order Added, Changed, Deprecated, Removed, Fixed,
/// Security, with an empty line between two sections.
pub open spec fn changes_text(c: ChangesView) -> Seq<char> {
    let any_added = c.added.len() > 0;
    let any_changed = any_added || c.changed.len() > 0;
    let any_deprecated = any_changed || c.deprecated.len() > 0;
    let any_removed = any_deprecated || c.removed.len() > 0;
    let any_fixed = any_removed || c.fixed.len() > 0;
    section_text(false, TITLE_ADDED@, c.added) + section_text(
        any_added,
        TITLE_CHANGED@,
        c.changed,
    ) + section_text(any_changed, TITLE_DEPRECATED@, c.deprecated) + section_text(
        any_deprecated,
        TITLE_REMOVED@,
        c.removed,
    ) + section_text(any_removed, TITLE_FIXED@, c.fixed) + section_text(
        any_fixed,
        TITLE_SECURITY@,
        c.security,
    )
}

/// Puts an empty line at the end of `out` where `first_printed` tells that
/// a section was written before, and notes that one is written now.
pub fn ensure_newline(out: &mut String, first_printed: &mut bool)
    ensures
        final(out)@ == old(out)@ + section_gap(*old(first_printed)),
        *final(first_printed),
{
    if *first_printed {
        out.append(NEWLINE);
    } else {
        *first_printed = true;
        assert(out@ =~= old(out)@ + Seq::<char>::empty());
    }
}

/// The entry `change` as it is written.
pub fn print_change(change: &str) -> (s: String)
    ensures
        s@ == entry_text(change@),
{
    let lines = split(change, '\n');
    let mut shaped: Vec<String> = Vec::new();
    let ghost all = lines.deep_view();
    let mut i: usize = 0;
    assert(shaped.deep_view() =~= entry_lines(all).take(0));
    while i < lines.len()
        invariant
            i <= lines.len(),
            all == lines.deep_view(),
            shaped.deep_view() == entry_lines(all).take(i as int),
        decreases lines.len() - i,
    {
        let mut line = ITEM_INDENT.to_string();
        line.append(lines[i].as_str());
        let indented = trim_end(line.as_str());
        let ghost before = shaped.deep_view();
        if i == 0 {
            let mut first = ITEM_MARK.to_string();
            first.append(trim(skip(indented.as_str(), 1).as_str()).as_str());
            shaped.push(first);
        } else {
            shaped.push(indented);
        }
        assert(shaped.deep_view() =~= before.push(entry_line(all[i as int], i == 0)));
        i = i + 1;
        assert(shaped.deep_view() =~= entry_lines(all).take(i as int));
    }
    assert(entry_lines(all).take(i as int) =~= entry_lines(all));
    join(&shaped, NEWLINE)
}

/// Puts the entries `changes` at the end of `out` as they are written, each
/// ended by a line break.
pub fn print_changes(out: &mut String, changes: &Vec<String>)
    ensures
        final(out)@ == old(out)@ + entries_text(changes.deep_view()),
{
    let mut i: usize = 0;
    let ghost all = changes.deep_view();
    assert(all.take(0) =~= Seq::<Seq<char>>::empty());
    assert(out@ =~= old(out)@ + entries_text(all.take(0)));
    while i < changes.len()
        invariant
            i <= changes.len(),
            all == changes.deep_view(),
            out@ == old(out)@ + entries_text(all.take(i as int)),
        decreases changes.len() - i,
    {
        proof {
            let next = all.take(i + 1);
            assert(next.drop_last() =~= all.take(i as int));
            assert(next.last() == all[i as int]);
        }
        let ghost before = out@;
        out.append(print_change(changes[i].as_str()).as_str());
        out.append(NEWLINE);
        i = i + 1;
        assert(out@ =~= old(out)@ + entries_text(all.take(i as int)));
    }
    assert(all.take(i as int) =~= all);
}

/// Puts the section of the entries `entries` under the title `title` at
/// the end of `out`, where there are entries.
fn print_section(out: &mut String, first_printed: &mut bool, title: &str, entries: &Vec<String>)
    ensures
        final(out)@ == old(out)@ + section_text(
            *old(first_printed),
            title@,
            entries.deep_view(),
        ),
        *final(first_printed) == (*old(first_printed) || entries.len() > 0),
{
    if entries.len() > 0 {
        ensure_newline(out, first_printed);
        out.append(HEADING3);
        out.append(title);
        out.append(NEWLINE);
        print_changes(out, entries);
        assert(out@ =~= old(out)@ + section_text(
            *old(first_printed),
            title@,
            entries.deep_view(),
        ));
    } else {
        assert(out@ =~= old(out)@ + Seq::<char>::empty());
    }
}

impl Default for Changes {
    /// No changes of any kind.
    fn default() -> (c: Changes)
        ensures
            c@ == ChangesView::empty(),
    {
        Changes::new()
    }
}

impl Changes {
    /// No changes of any kind.
    pub fn new() -> (c: Changes)
        ensures
            c@ == ChangesView::empty(),
    {
        let c = Changes {
            added: Vec::new(),
            changed: Vec::new(),
            deprecated: Vec::new(),
            removed: Vec::new(),
            fixed: Vec::new(),
            security: Vec::new(),
        };
        assert(c.added.deep_view() =~= Seq::<Seq<char>>::empty());
        assert(c.changed.deep_view() =~= Seq::<Seq<char>>::empty());
        assert(c.deprecated.deep_view() =~= Seq::<Seq<char>>::empty());
        assert(c.removed.deep_view() =~= Seq::<Seq<char>>::empty());
        assert(c.fixed.deep_view() =~= Seq::<Seq<char>>::empty());
        assert(c.security.deep_view() =~= Seq::<Seq<char>>::empty());
        c
    }

    /// Adds the entry `change` at the end of those of the kind `kind`.
    pub fn add(&mut self, kind: ChangeKind, change: String)
        ensures
            final(self)@ == old(self)@.with(kind, change@),
    {
        let ghost before = self@;
        match kind {
            ChangeKind::Added => {
                self.added.push(change);
                assert(self.added.deep_view() =~= before.added.push(change@));
            },
            ChangeKind::Changed => {
                self.changed.push(change);
                assert(self.changed.deep_view() =~= before.changed.push(change@));
            },
            ChangeKind::Deprecated => {
                self.deprecated.push(change);
                assert(self.deprecated.deep_view() =~= before.deprecated.push(change@));
            },
            ChangeKind::Removed => {
                self.removed.push(change);
                assert(self.removed.deep_view() =~= before.removed.push(change@));
            },
            ChangeKind::Fixed => {
                self.fixed.push(change);
                assert(self.fixed.deep_view() =~= before.fixed.push(change@));
            },
            ChangeKind::Security => {
                self.security.push(change);
                assert(self.security.deep_view() =~= before.security.push(change@));
            },
        }
    }

    /// The entries of the kind `kind`.
    pub fn entries(&self, kind: ChangeKind) -> (entries: &Vec<String>)
        ensures
            entries.deep_view() == self@.of(kind),
    {
        match kind {
            ChangeKind::Added => &self.added,
            ChangeKind::Changed => &self.changed,
            ChangeKind::Deprecated => &self.deprecated,
            ChangeKind::Removed => &self.removed,
            ChangeKind::Fixed => &self.fixed,
            ChangeKind::Security => &self.security,
        }
    }

    /// Whether there is no entry of any kind.
    pub fn is_empty(&self) -> (b: bool)
        ensures
            b == self@.is_empty(),
    {
        self.added.len() == 0 && self.changed.len() == 0 && self.deprecated.len() == 0
            && self.removed.len() == 0 && self.fixed.len() == 0 && self.security.len() == 0
    }

    /// A copy of the changes.
    pub fn copy(&self) -> (c: Changes)
        ensures
            c@ == self@,
    {
        let c = Changes {
            added: copy_lines(&self.added, 0, self.added.len()),
            changed: copy_lines(&self.changed, 0, self.changed.len()),
            deprecated: copy_lines(&self.deprecated, 0, self.deprecated.len()),
            removed: copy_lines(&self.removed, 0, self.removed.len()),
            fixed: copy_lines(&self.fixed, 0, self.fixed.len()),
            security: copy_lines(&self.security, 0, self.security.len()),
        };
        assert(c.added.deep_view() =~= self.added.deep_view());
        assert(c.changed.deep_view() =~= self.changed.deep_view());
        assert(c.deprecated.deep_view() =~= self.deprecated.deep_view());
        assert(c.removed.deep_view() =~= self.removed.deep_view());
        assert(c.fixed.deep_view() =~= self.fixed.deep_view());
        assert(c.security.deep_view() =~= self.security.deep_view());
        c
    }

    /// The changes as they are written.
    pub fn render(&self) -> (s: String)
        ensures
            s@ == changes_text(self@),
    {
        let mut out = String::new();
        let mut first_printed = false;
        print_section(&mut out, &mut first_printed, TITLE_ADDED, &self.added);
        print_section(&mut out, &mut first_printed, TITLE_CHANGED, &self.changed);
        print_section(&mut out, &mut first_printed, TITLE_DEPRECATED, &self.deprecated);
        print_section(&mut out, &mut first_printed, TITLE_REMOVED, &self.removed);
        print_section(&mut out, &mut first_printed, TITLE_FIXED, &self.fixed);
        print_section(&mut out, &mut first_printed, TITLE_SECURITY, &self.security);
        assert(out@ =~= changes_text(self@));
        out
    }
}

} // verus!
