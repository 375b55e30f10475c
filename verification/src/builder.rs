//! Builders: how a report is put together, from the leaves up.
//!
//! There is one builder for each shape of report. The two that take child
//! reports leave out a child that is empty, so an empty report is never
//! attached to a parent.

use crate::compact::compact_new;
use crate::error::Error;
use crate::path::{Path, SegmentView};
use crate::report::{attach, indexed_view, keyed_view, messages_of, Report, ReportView};
use compact_str::CompactString;
use vstd::prelude::*;

verus! {

/// Collects the errors found at one path.
#[derive(Debug)]
pub struct FlatBuilder {
    path: Path,
    errors: Vec<Error>,
}

impl FlatBuilder {
    /// The path at which the errors are found.
    pub closed spec fn path(&self) -> Seq<SegmentView> {
        self.path@
    }

    /// The messages pushed so far, in order.
    pub closed spec fn messages(&self) -> Seq<Seq<char>> {
        messages_of(self.errors@)
    }

    /// A builder for the errors at `path`, with none yet.
    pub fn new(path: Path) -> (builder: FlatBuilder)
        ensures
            builder.path() == path@,
            builder.messages() == Seq::<Seq<char>>::empty(),
    {
        let builder = FlatBuilder { path, errors: Vec::new() };
        assert(builder.messages() =~= Seq::<Seq<char>>::empty());
        builder
    }

    /// Adds `error` after those already pushed.
    pub fn push(&mut self, error: Error)
        ensures
            final(self).path() == old(self).path(),
            final(self).messages() == old(self).messages().push(error@),
    {
        self.errors.push(error);
        assert(messages_of(self.errors@) =~= messages_of(old(self).errors@).push(error@));
    }

    /// The flat report of what was pushed; it is empty if nothing was.
    pub fn finish(self) -> (report: Report)
        ensures
            report@ == ReportView::Flat(self.path(), self.messages()),
    {
        Report::Flat(self.path, self.errors)
    }
}

/// Collects the reports of the elements of a list.
#[derive(Debug)]
pub struct IndexedBuilder {
    children: Vec<(usize, Report)>,
}

impl IndexedBuilder {
    /// The children attached so far, in order.
    pub closed spec fn view(&self) -> Seq<(usize, ReportView)> {
        indexed_view(self.children@)
    }

    /// A builder with no child yet.
    pub fn new() -> (builder: IndexedBuilder)
        ensures
            builder@ == Seq::<(usize, ReportView)>::empty(),
    {
        IndexedBuilder { children: Vec::new() }
    }

    /// Attaches `child` under `index`, after the children already there. An
    /// empty child is left out.
    pub fn insert(&mut self, index: usize, child: Report)
        ensures
            final(self)@ == attach(old(self)@, index, child@),
    {
        if !child.is_empty() {
            self.children.push((index, child));
            assert(self.children@.drop_last() =~= old(self).children@);
        }
    }

    /// The indexed report of what was attached.
    pub fn finish(self) -> (report: Report)
        ensures
            report@ == ReportView::Indexed(self@),
    {
        Report::Indexed(self.children)
    }
}

/// Collects the reports of the fields of a composite.
#[derive(Debug)]
pub struct KeyedBuilder {
    children: Vec<(CompactString, Report)>,
}

impl KeyedBuilder {
    /// The children attached so far, in order.
    pub closed spec fn view(&self) -> Seq<(Seq<char>, ReportView)> {
        keyed_view(self.children@)
    }

    /// A builder with no child yet.
    pub fn new() -> (builder: KeyedBuilder)
        ensures
            builder@ == Seq::<(Seq<char>, ReportView)>::empty(),
    {
        KeyedBuilder { children: Vec::new() }
    }

    /// Attaches `child` under `name`, after the children already there. An
    /// empty child is left out.
    pub fn insert(&mut self, name: &str, child: Report)
        ensures
            final(self)@ == attach(old(self)@, name@, child@),
    {
        if !child.is_empty() {
            self.children.push((compact_new(name), child));
            assert(self.children@.drop_last() =~= old(self).children@);
        }
    }

    /// The keyed report of what was attached.
    pub fn finish(self) -> (report: Report)
        ensures
            report@ == ReportView::Keyed(self@),
    {
        Report::Keyed(self.children)
    }
}

} // verus!
