//! Paths: where in a validated value an error belongs.

use crate::compact::{compact_as_str, compact_new, compact_same, compact_text};
use crate::text::{decimal, push_decimal};
use compact_str::CompactString;
use std::sync::Arc;
use vstd::prelude::*;
use vstd::string::StringExecFns;

verus! {

/// What a [`Segment`] stands for: a field name or a position in a list.
pub enum SegmentView {
    Key(Seq<char>),
    Index(usize),
}

/// One step of a path: the name of a field, or the index of an element.
#[derive(Debug)]
pub enum Segment {
    Key(CompactString),
    Index(usize),
}

impl Segment {
    pub open spec fn view(&self) -> SegmentView {
        match *self {
            Segment::Key(name) => SegmentView::Key(compact_text(name)),
            Segment::Index(index) => SegmentView::Index(index),
        }
    }

    /// The step into the field called `name`.
    pub fn key(name: &str) -> (segment: Segment)
        ensures
            segment@ == SegmentView::Key(name@),
    {
        Segment::Key(compact_new(name))
    }

    /// The step to the element at `index`.
    pub fn index(index: usize) -> (segment: Segment)
        ensures
            segment@ == SegmentView::Index(index),
    {
        Segment::Index(index)
    }

    /// Whether two segments stand for the same step.
    pub fn same(&self, other: &Segment) -> (same: bool)
        ensures
            same == (self@ == other@),
    {
        match self {
            Segment::Key(a) => match other {
                Segment::Key(b) => compact_same(a, b),
                Segment::Index(_) => false,
            },
            Segment::Index(i) => match other {
                Segment::Key(_) => false,
                Segment::Index(j) => *i == *j,
            },
        }
    }
}

/// The text of one segment. A key is written after a dot unless it comes
/// first; an index is written in square brackets.
pub open spec fn segment_text(segment: SegmentView, first: bool) -> Seq<char> {
    match segment {
        SegmentView::Key(name) => if first {
            name
        } else {
            seq!['.'] + name
        },
        SegmentView::Index(index) => seq!['['] + decimal(index as nat) + seq![']'],
    }
}

/// The text of a path: its segments from the root down, as in `a.b[2].c`.
pub open spec fn path_text(segments: Seq<SegmentView>) -> Seq<char>
    decreases segments.len(),
{
    if segments.len() == 0 {
        Seq::empty()
    } else {
        path_text(segments.drop_last()) + segment_text(segments.last(), segments.len() == 1)
    }
}

#[derive(Debug)]
struct Node {
    segment: Segment,
    parent: Path,
}

/// A location in a value: the segments that lead to it from the root.
///
/// A path is never changed once made. [`Path::join`] gives a longer path
/// that shares this one as its prefix, so the paths of sibling fields cost
/// one node each.
#[derive(Debug)]
pub struct Path {
    head: Option<Arc<Node>>,
}

impl Path {
    /// The segments of the path, root first.
    pub closed spec fn view(&self) -> Seq<SegmentView>
        decreases self,
    {
        match self.head {
            None => Seq::empty(),
            Some(node) => node.parent.view().push(node.segment@),
        }
    }

    /// The path of the root: no segments.
    pub fn empty() -> (path: Path)
        ensures
            path@ == Seq::<SegmentView>::empty(),
    {
        Path { head: None }
    }

    /// Another handle on the same path; nothing is copied.
    pub fn share(&self) -> (path: Path)
        ensures
            path@ == self@,
    {
        match &self.head {
            None => Path { head: None },
            Some(node) => Path { head: Some(node.clone()) },
        }
    }

    /// The path one step further: this path, then `segment`.
    pub fn join(&self, segment: Segment) -> (path: Path)
        ensures
            path@ == self@.push(segment@),
    {
        Path { head: Some(Arc::new(Node { segment, parent: self.share() })) }
    }

    /// Whether this is the path of the root.
    pub fn is_empty(&self) -> (empty: bool)
        ensures
            empty == (self@.len() == 0),
    {
        self.head.is_none()
    }

    /// Whether two paths have the same segments in the same order.
    pub fn same(&self, other: &Path) -> (same: bool)
        ensures
            same == (self@ == other@),
        decreases *self,
    {
        match &self.head {
            None => {
                let same = other.head.is_none();
                assert(self@.len() == 0);
                assert(!same ==> other@.len() > 0);
                same
            },
            Some(node) => match &other.head {
                None => {
                    assert(other@.len() == 0);
                    assert(self@.len() > 0);
                    false
                },
                Some(other_node) => {
                    let ghost a = node.parent@;
                    let ghost b = other_node.parent@;
                    let ghost x = node.segment@;
                    let ghost y = other_node.segment@;
                    assert(self@ == a.push(x));
                    assert(other@ == b.push(y));
                    assert(a.push(x) == b.push(y) ==> x == y && a == b) by {
                        if a.push(x) == b.push(y) {
                            assert(a.push(x).last() == x);
                            assert(b.push(y).last() == y);
                            assert(a.push(x).drop_last() =~= a);
                            assert(b.push(y).drop_last() =~= b);
                        }
                    }
                    if !node.segment.same(&other_node.segment) {
                        return false;
                    }
                    node.parent.same(&other_node.parent)
                },
            },
        }
    }

    /// Appends the text of the path to `out`.
    pub fn write_to(&self, out: &mut String)
        ensures
            final(out)@ == old(out)@ + path_text(self@),
        decreases *self,
    {
        match &self.head {
            None => {
                assert(out@ =~= old(out)@ + path_text(self@));
            },
            Some(node) => {
                node.parent.write_to(out);
                let first = node.parent.is_empty();
                proof {
                    reveal_strlit(".");
                    reveal_strlit("[");
                    reveal_strlit("]");
                    assert(self@.drop_last() =~= node.parent@);
                    assert(self@.last() == node.segment@);
                }
                match &node.segment {
                    Segment::Key(name) => {
                        if !first {
                            out.append(".");
                        }
                        out.append(compact_as_str(name));
                    },
                    Segment::Index(index) => {
                        out.append("[");
                        push_decimal(out, *index);
                        out.append("]");
                    },
                }
                assert(out@ =~= old(out)@ + path_text(self@));
            },
        }
    }

    /// The text of the path, as in `a.b[2].c`.
    pub fn render(&self) -> (text: String)
        ensures
            text@ == path_text(self@),
    {
        let mut text = String::new();
        self.write_to(&mut text);
        assert(text@ =~= path_text(self@));
        text
    }
}

impl PartialEq for Segment {
    fn eq(&self, other: &Segment) -> (same: bool) {
        self.same(other)
    }
}

impl vstd::std_specs::cmp::PartialEqSpecImpl for Segment {
    open spec fn obeys_eq_spec() -> bool {
        true
    }

    open spec fn eq_spec(&self, other: &Segment) -> bool {
        self@ == other@
    }
}

impl PartialEq for Path {
    fn eq(&self, other: &Path) -> (same: bool) {
        self.same(other)
    }
}

impl vstd::std_specs::cmp::PartialEqSpecImpl for Path {
    open spec fn obeys_eq_spec() -> bool {
        true
    }

    open spec fn eq_spec(&self, other: &Path) -> bool {
        self@ == other@
    }
}

} // verus!
