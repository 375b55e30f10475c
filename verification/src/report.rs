//! Reports: the errors of one validation, laid out like the value they are
//! about.

use crate::compact::compact_text;
use crate::error::Error;
use crate::path::{path_text, Path, SegmentView};
use compact_str::CompactString;
use vstd::prelude::*;
use vstd::string::StringExecFns;

verus! {

/// What a [`Report`] holds, as plain values.
pub enum ReportView {
    /// The messages of the errors found at one path, in the order found.
    Flat(Seq<SegmentView>, Seq<Seq<char>>),
    /// The reports of list elements, each under its index.
    Indexed(Seq<(usize, ReportView)>),
    /// The reports of fields, each under the field's name.
    Keyed(Seq<(Seq<char>, ReportView)>),
}

/// The leaves below a list of children, child by child.
pub open spec fn children_leaves<K>(children: Seq<(K, ReportView)>) -> Seq<
    (Seq<SegmentView>, Seq<char>),
>
    decreases children,
{
    if children.len() == 0 {
        Seq::empty()
    } else {
        children_leaves(children.drop_last()) + children.last().1.leaves()
    }
}

/// Whether no child is empty, and every child is well formed.
pub open spec fn children_well_formed<K>(children: Seq<(K, ReportView)>) -> bool
    decreases children,
{
    if children.len() == 0 {
        true
    } else {
        &&& children_well_formed(children.drop_last())
        &&& !children.last().1.is_empty()
        &&& children.last().1.well_formed()
    }
}

impl ReportView {
    /// Every error of the report with its path, depth first: the errors of a
    /// flat report in the order found, the children of the others in the
    /// order in which they were attached.
    pub open spec fn leaves(self) -> Seq<(Seq<SegmentView>, Seq<char>)>
        decreases self,
    {
        match self {
            ReportView::Flat(path, messages) => Seq::new(
                messages.len(),
                |i: int| (path, messages[i]),
            ),
            ReportView::Indexed(children) => children_leaves(children),
            ReportView::Keyed(children) => children_leaves(children),
        }
    }

    /// A report is empty when it holds no error at any depth.
    pub open spec fn is_empty(self) -> bool {
        self.leaves().len() == 0
    }

    /// A report is well formed when no empty report is attached anywhere
    /// inside it.
    pub open spec fn well_formed(self) -> bool
        decreases self,
    {
        match self {
            ReportView::Flat(_, _) => true,
            ReportView::Indexed(children) => children_well_formed(children),
            ReportView::Keyed(children) => children_well_formed(children),
        }
    }

    /// The text of the report: one line for each leaf.
    pub open spec fn text(self) -> Seq<char> {
        leaves_text(self.leaves())
    }

    /// Whether the report is that of a value at `path`: its own errors are
    /// at `path`, and each child is the report of the value one step
    /// further, by the child's index or name.
    pub open spec fn located(self, path: Seq<SegmentView>) -> bool
        decreases self,
    {
        match self {
            ReportView::Flat(place, _) => place == path,
            ReportView::Indexed(children) => indexed_located(children, path),
            ReportView::Keyed(children) => keyed_located(children, path),
        }
    }
}

/// Whether each child is the report of the element at its index.
pub open spec fn indexed_located(children: Seq<(usize, ReportView)>, path: Seq<SegmentView>) -> bool
    decreases children,
{
    if children.len() == 0 {
        true
    } else {
        &&& indexed_located(children.drop_last(), path)
        &&& children.last().1.located(path.push(SegmentView::Index(children.last().0)))
    }
}

/// Whether each child is the report of the field of its name.
pub open spec fn keyed_located(children: Seq<(Seq<char>, ReportView)>, path: Seq<SegmentView>) -> bool
    decreases children,
{
    if children.len() == 0 {
        true
    } else {
        &&& keyed_located(children.drop_last(), path)
        &&& children.last().1.located(path.push(SegmentView::Key(children.last().0)))
    }
}

/// The line of one error: its path, a colon and a space, its message, and a
/// line feed.
pub open spec fn leaf_text(leaf: (Seq<SegmentView>, Seq<char>)) -> Seq<char> {
    path_text(leaf.0) + seq![':', ' '] + leaf.1 + seq!['\n']
}

/// The lines of `leaves`, one after the other.
pub open spec fn leaves_text(leaves: Seq<(Seq<SegmentView>, Seq<char>)>) -> Seq<char>
    decreases leaves.len(),
{
    if leaves.len() == 0 {
        Seq::empty()
    } else {
        leaves_text(leaves.drop_last()) + leaf_text(leaves.last())
    }
}

/// The text of two runs of leaves is the text of the first, then that of the
/// second.
proof fn lemma_leaves_text_concat(
    a: Seq<(Seq<SegmentView>, Seq<char>)>,
    b: Seq<(Seq<SegmentView>, Seq<char>)>,
)
    ensures
        leaves_text(a + b) == leaves_text(a) + leaves_text(b),
    decreases b.len(),
{
    if b.len() == 0 {
        assert(a + b =~= a);
        assert(leaves_text(a) + leaves_text(b) =~= leaves_text(a));
    } else {
        lemma_leaves_text_concat(a, b.drop_last());
        assert((a + b).drop_last() =~= a + b.drop_last());
        assert((a + b).last() == b.last());
        assert(leaves_text(a + b) =~= leaves_text(a) + leaves_text(b));
    }
}

/// Taking one more child adds that child's leaves at the end.
proof fn lemma_children_leaves_step<K>(children: Seq<(K, ReportView)>, i: int)
    requires
        0 <= i < children.len(),
    ensures
        children_leaves(children.take(i + 1)) == children_leaves(children.take(i))
            + children[i].1.leaves(),
{
    assert(children.take(i + 1).drop_last() =~= children.take(i));
    assert(children.take(i + 1).last() == children[i]);
}

/// A list of children has no leaf exactly when every child is empty.
proof fn lemma_children_leaves_empty<K>(children: Seq<(K, ReportView)>)
    ensures
        children_leaves(children).len() == 0 <==> forall|i: int|
            0 <= i < children.len() ==> (#[trigger] children[i]).1.is_empty(),
    decreases children.len(),
{
    if children.len() > 0 {
        let front = children.drop_last();
        lemma_children_leaves_empty(front);
        assert forall|i: int| 0 <= i < front.len() implies front[i] == children[i] by {}
        if children_leaves(children).len() == 0 {
            assert forall|i: int| 0 <= i < children.len() implies (#[trigger] children[i]).1.is_empty() by {
                if i < front.len() {
                    assert(front[i] == children[i]);
                }
            }
        }
        if forall|i: int| 0 <= i < children.len() ==> (#[trigger] children[i]).1.is_empty() {
            assert(children.last() == children[children.len() - 1]);
            assert forall|i: int| 0 <= i < front.len() implies (#[trigger] front[i]).1.is_empty() by {
                assert(front[i] == children[i]);
            }
        }
    }
}

/// `children`, with `child` attached under `key` unless it is empty.
pub open spec fn attach<K>(children: Seq<(K, ReportView)>, key: K, child: ReportView) -> Seq<
    (K, ReportView),
> {
    if child.is_empty() {
        children
    } else {
        children.push((key, child))
    }
}

/// The errors of one validation, nested like the value they are about.
///
/// A report has one of three shapes: the errors of one place, the reports
/// of the elements of a list, or the reports of the fields of a composite.
/// It owns what is inside it, and nothing inside points back.
#[derive(Debug)]
pub enum Report {
    /// The errors found at one path, in the order found.
    Flat(Path, Vec<Error>),
    /// The reports of list elements, each under its index, in the order
    /// attached.
    Indexed(Vec<(usize, Report)>),
    /// The reports of fields, each under the field's name, in the order
    /// attached.
    Keyed(Vec<(CompactString, Report)>),
}

/// The messages of `errors`, in order.
pub open spec fn messages_of(errors: Seq<Error>) -> Seq<Seq<char>> {
    errors.map_values(|e: Error| e@)
}

/// What a list of indexed children holds.
pub open spec fn indexed_view(children: Seq<(usize, Report)>) -> Seq<(usize, ReportView)>
    decreases children,
{
    if children.len() == 0 {
        Seq::empty()
    } else {
        indexed_view(children.drop_last()).push((children.last().0, children.last().1@))
    }
}

/// What a list of keyed children holds.
pub open spec fn keyed_view(children: Seq<(CompactString, Report)>) -> Seq<
    (Seq<char>, ReportView),
>
    decreases children,
{
    if children.len() == 0 {
        Seq::empty()
    } else {
        keyed_view(children.drop_last()).push(
            (compact_text(children.last().0), children.last().1@),
        )
    }
}

/// What a list of leaves holds.
pub open spec fn leaves_view(leaves: Seq<(Path, Error)>) -> Seq<(Seq<SegmentView>, Seq<char>)> {
    leaves.map_values(|leaf: (Path, Error)| (leaf.0@, leaf.1@))
}

/// `views` holds, place for place, what the reports in `children` hold.
spec fn mirrors<K, V>(children: Seq<(K, Report)>, views: Seq<(V, ReportView)>) -> bool {
    &&& views.len() == children.len()
    &&& forall|i: int| 0 <= i < children.len() ==> (#[trigger] views[i]).1 == children[i].1@
}

/// The view of indexed children is made place for place.
proof fn lemma_indexed_view(children: Seq<(usize, Report)>)
    ensures
        indexed_view(children).len() == children.len(),
        forall|i: int|
            0 <= i < children.len() ==> #[trigger] indexed_view(children)[i] == (
                children[i].0,
                children[i].1@,
            ),
        mirrors(children, indexed_view(children)),
    decreases children.len(),
{
    if children.len() > 0 {
        lemma_indexed_view(children.drop_last());
    }
}

/// The view of keyed children is made place for place.
proof fn lemma_keyed_view(children: Seq<(CompactString, Report)>)
    ensures
        keyed_view(children).len() == children.len(),
        forall|i: int|
            0 <= i < children.len() ==> #[trigger] keyed_view(children)[i] == (
                compact_text(children[i].0),
                children[i].1@,
            ),
        mirrors(children, keyed_view(children)),
    decreases children.len(),
{
    if children.len() > 0 {
        lemma_keyed_view(children.drop_last());
    }
}

impl Report {
    /// What the report holds.
    pub open spec fn view(&self) -> ReportView
        decreases self,
    {
        match *self {
            Report::Flat(path, errors) => ReportView::Flat(path@, messages_of(errors@)),
            Report::Indexed(children) => ReportView::Indexed(indexed_view(children@)),
            Report::Keyed(children) => ReportView::Keyed(keyed_view(children@)),
        }
    }

    /// Whether the report holds no error at any depth.
    pub fn is_empty(&self) -> (empty: bool)
        ensures
            empty == self@.is_empty(),
        decreases *self,
    {
        match self {
            Report::Flat(_, errors) => errors.len() == 0,
            Report::Indexed(children) => {
                proof {
                    lemma_indexed_view(children@);
                }
                children_empty::<usize, usize>(children, Ghost(indexed_view(children@)))
            },
            Report::Keyed(children) => {
                proof {
                    lemma_keyed_view(children@);
                }
                children_empty::<CompactString, Seq<char>>(children, Ghost(keyed_view(children@)))
            },
        }
    }

    /// Appends the text of the report to `out`: for each error, depth
    /// first, its path, `": "`, its message and a line feed.
    pub fn write_to(&self, out: &mut String)
        ensures
            final(out)@ == old(out)@ + self@.text(),
        decreases *self,
    {
        match self {
            Report::Flat(path, errors) => {
                let ghost before = out@;
                let ghost leaves = self@.leaves();
                let mut i: usize = 0;
                assert(leaves.take(0) =~= Seq::empty());
                assert(out@ =~= before + leaves_text(leaves.take(0)));
                while i < errors.len()
                    invariant
                        i <= errors.len(),
                        leaves == self@.leaves(),
                        *self == Report::Flat(*path, *errors),
                        out@ == before + leaves_text(leaves.take(i as int)),
                    decreases errors.len() - i,
                {
                    proof {
                        reveal_strlit(": ");
                        reveal_strlit("\n");
                    }
                    let ghost start = out@;
                    path.write_to(out);
                    out.append(": ");
                    out.append(errors[i].message());
                    out.append("\n");
                    proof {
                        assert(leaves[i as int] == (path@, errors@[i as int]@));
                        assert(leaves.take(i + 1).drop_last() =~= leaves.take(i as int));
                        assert(leaves.take(i + 1).last() == leaves[i as int]);
                        assert(": "@ =~= seq![':', ' ']);
                        assert("\n"@ =~= seq!['\n']);
                        assert(out@ =~= start + leaf_text(leaves[i as int]));
                        assert(out@ =~= before + leaves_text(leaves.take(i + 1)));
                    }
                    i += 1;
                }
                assert(leaves.take(i as int) =~= leaves);
            },
            Report::Indexed(children) => {
                proof {
                    lemma_indexed_view(children@);
                }
                children_write::<usize, usize>(children, Ghost(indexed_view(children@)), out);
            },
            Report::Keyed(children) => {
                proof {
                    lemma_keyed_view(children@);
                }
                children_write::<CompactString, Seq<char>>(children, Ghost(keyed_view(children@)), out);
            },
        }
    }

    /// The text of the report, one line for each error.
    pub fn render(&self) -> (text: String)
        ensures
            text@ == self@.text(),
    {
        let mut text = String::new();
        self.write_to(&mut text);
        assert(text@ =~= self@.text());
        text
    }

    /// Appends every error of the report, with its path, to `out`.
    pub fn collect_into(&self, out: &mut Vec<(Path, Error)>)
        ensures
            leaves_view(final(out)@) == leaves_view(old(out)@) + self@.leaves(),
        decreases *self,
    {
        match self {
            Report::Flat(path, errors) => {
                let ghost before = leaves_view(out@);
                let ghost leaves = self@.leaves();
                let mut i: usize = 0;
                assert(leaves_view(out@) =~= before + leaves.take(0));
                while i < errors.len()
                    invariant
                        i <= errors.len(),
                        leaves == self@.leaves(),
                        *self == Report::Flat(*path, *errors),
                        leaves_view(out@) == before + leaves.take(i as int),
                    decreases errors.len() - i,
                {
                    let ghost start = out@;
                    let leaf = (path.share(), errors[i].clone());
                    out.push(leaf);
                    proof {
                        assert(leaves[i as int] == (path@, errors@[i as int]@));
                        assert(leaves_view(out@) =~= leaves_view(start).push(leaves[i as int]));
                        assert(leaves.take(i + 1) =~= leaves.take(i as int).push(leaves[i as int]));
                        assert(leaves_view(out@) =~= before + leaves.take(i + 1));
                    }
                    i += 1;
                }
                assert(leaves.take(i as int) =~= leaves);
            },
            Report::Indexed(children) => {
                proof {
                    lemma_indexed_view(children@);
                }
                children_collect::<usize, usize>(children, Ghost(indexed_view(children@)), out);
            },
            Report::Keyed(children) => {
                proof {
                    lemma_keyed_view(children@);
                }
                children_collect::<CompactString, Seq<char>>(children, Ghost(keyed_view(children@)), out);
            },
        }
    }

    /// Every error of the report with its path, depth first. The report is
    /// left as it was, so the walk can be made again.
    pub fn leaves(&self) -> (leaves: Vec<(Path, Error)>)
        ensures
            leaves_view(leaves@) == self@.leaves(),
    {
        let mut leaves: Vec<(Path, Error)> = Vec::new();
        self.collect_into(&mut leaves);
        assert(leaves_view(leaves@) =~= self@.leaves());
        leaves
    }
}

fn children_empty<K, V>(children: &Vec<(K, Report)>, Ghost(views): Ghost<Seq<(V, ReportView)>>) -> (empty: bool)
    requires
        mirrors(children@, views),
    ensures
        empty == (children_leaves(views).len() == 0),
    decreases children,
{
    let mut i: usize = 0;
    while i < children.len()
        invariant
            i <= children.len(),
            mirrors(children@, views),
            forall|k: int| 0 <= k < i ==> (#[trigger] views[k]).1.is_empty(),
        decreases children.len() - i,
    {
        if !children[i].1.is_empty() {
            proof {
                lemma_children_leaves_empty(views);
                assert(!views[i as int].1.is_empty());
            }
            return false;
        }
        i += 1;
    }
    proof {
        lemma_children_leaves_empty(views);
    }
    true
}

fn children_write<K, V>(
    children: &Vec<(K, Report)>,
    Ghost(views): Ghost<Seq<(V, ReportView)>>,
    out: &mut String,
)
    requires
        mirrors(children@, views),
    ensures
        final(out)@ == old(out)@ + leaves_text(children_leaves(views)),
    decreases children,
{
    let ghost before = out@;
    let mut i: usize = 0;
    assert(out@ =~= before + leaves_text(children_leaves(views.take(0))));
    while i < children.len()
        invariant
            i <= children.len(),
            mirrors(children@, views),
            out@ == before + leaves_text(children_leaves(views.take(i as int))),
        decreases children.len() - i,
    {
        children[i].1.write_to(out);
        proof {
            lemma_children_leaves_step(views, i as int);
            lemma_leaves_text_concat(
                children_leaves(views.take(i as int)),
                views[i as int].1.leaves(),
            );
            assert(out@ =~= before + leaves_text(children_leaves(views.take(i + 1))));
        }
        i += 1;
    }
    assert(views.take(i as int) =~= views);
}

fn children_collect<K, V>(
    children: &Vec<(K, Report)>,
    Ghost(views): Ghost<Seq<(V, ReportView)>>,
    out: &mut Vec<(Path, Error)>,
)
    requires
        mirrors(children@, views),
    ensures
        leaves_view(final(out)@) == leaves_view(old(out)@) + children_leaves(views),
    decreases children,
{
    let ghost before = leaves_view(out@);
    let mut i: usize = 0;
    assert(leaves_view(out@) =~= before + children_leaves(views.take(0)));
    while i < children.len()
        invariant
            i <= children.len(),
            mirrors(children@, views),
            leaves_view(out@) == before + children_leaves(views.take(i as int)),
        decreases children.len() - i,
    {
        children[i].1.collect_into(out);
        proof {
            lemma_children_leaves_step(views, i as int);
            assert(leaves_view(out@) =~= before + children_leaves(views.take(i + 1)));
        }
        i += 1;
    }
    assert(views.take(i as int) =~= views);
}

} // verus!
