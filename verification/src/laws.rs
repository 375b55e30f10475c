//! Laws: what holds of every validation, proved from the definitions.

use crate::context::Context;
use crate::declare::{Checks, Field, Plan, Rule, Shape};
use crate::path::SegmentView;
use crate::report::{
    attach, children_leaves, children_well_formed, indexed_located, keyed_located, Report,
    ReportView,
};
use crate::rules::{Bounds, Range};
use crate::validate::{fields_children, items_children, verdict_on, with_place};
use crate::value::Value;
use vstd::prelude::*;

verus! {

/// Whether each rule fails on `value` in the context `ctx`.
pub open spec fn fails_on<C: Context>(value: Value, ctx: &C) -> spec_fn(Rule) -> bool {
    |rule: Rule| rule.verdict(value, ctx) is Some
}

/// The indices of a list of `n` elements, in order.
pub open spec fn indices(n: nat) -> Seq<int> {
    Seq::new(n, |i: int| i)
}

/// What the element at each index contributes to the report of a list whose
/// elements have nothing declared inside them: a flat report of its errors
/// under its index, if it has any.
pub open spec fn element_child<C: Context>(
    checks: Checks,
    items: Seq<Value>,
    ctx: &C,
    path: Seq<SegmentView>,
) -> spec_fn(int) -> Option<(usize, ReportView)> {
    |i: int|
        if checks.messages(items[i], ctx).len() > 0 {
            Some(
                (
                    i as usize,
                    ReportView::Flat(
                        path.push(SegmentView::Index(i as usize)),
                        checks.messages(items[i], ctx),
                    ),
                ),
            )
        } else {
            None
        }
}

/// Whether the element at each index has errors of its own.
pub open spec fn element_fails<C: Context>(checks: Checks, items: Seq<Value>, ctx: &C) -> spec_fn(
    int,
) -> bool {
    |i: int| checks.messages(items[i], ctx).len() > 0
}

/// Validating one value twice against one declaration, in one context,
/// comes to the same: both succeed, or both fail with reports that hold the
/// same errors at the same paths in the same order.
pub proof fn law_validate_is_repeatable<C: Context>(
    shape: Shape,
    value: Value,
    ctx: &C,
    first: Result<(), Report>,
    second: Result<(), Report>,
)
    requires
        shape.yields(value, ctx, first),
        shape.yields(value, ctx, second),
    ensures
        first is Ok <==> second is Ok,
        first matches Err(a) ==> second matches Err(b) && a@ == b@ && a@.leaves() == b@.leaves()
            && a@.text() == b@.text(),
{
}

/// A value that is set gets one error for each rule that it fails, however
/// many fail: the messages are those of the failing rules in the order of
/// the rules, and there are as many messages as failing rules.
pub proof fn law_one_error_for_each_failing_rule<C: Context>(
    checks: Checks,
    value: Value,
    ctx: &C,
    path: Seq<SegmentView>,
)
    requires
        !(value is Absent),
    ensures
        checks.messages(value, ctx) == checks.rules@.filter_map(verdict_on(value, ctx)),
        checks.messages(value, ctx).len() == checks.rules@.filter(fails_on(value, ctx)).len(),
        ReportView::Flat(path, checks.messages(value, ctx)).leaves().len() == checks.rules@.filter(
            fails_on(value, ctx),
        ).len(),
        forall|i: int|
            0 <= i < checks.messages(value, ctx).len() ==> (#[trigger] ReportView::Flat(
                path,
                checks.messages(value, ctx),
            ).leaves()[i]).0 == path,
{
    lemma_failing_count(checks.rules@, value, ctx);
}

proof fn lemma_failing_count<C: Context>(rules: Seq<Rule>, value: Value, ctx: &C)
    ensures
        rules.filter_map(verdict_on(value, ctx)).len() == rules.filter(fails_on(value, ctx)).len(),
    decreases rules.len(),
{
    reveal(Seq::filter);
    if rules.len() > 0 {
        lemma_failing_count(rules.drop_last(), value, ctx);
    }
}

/// An absent value gets one error if it is required, and none if it is not:
/// no rule runs on it.
pub proof fn law_absence_runs_no_rule<C: Context>(checks: Checks, ctx: &C)
    ensures
        checks.messages(Value::Absent, ctx) == if checks.required {
            seq!["value is required"@]
        } else {
            Seq::<Seq<char>>::empty()
        },
        checks.inside(Value::Absent, ctx, Seq::empty()) is None,
{
}

/// Bounds on a count are inclusive: the least and the greatest count
/// allowed pass, the next below and the next above do not.
pub proof fn law_bounds_are_inclusive(min: usize, max: usize)
    requires
        min <= max,
    ensures
        (Bounds { min: Some(min), max: Some(max) }).admits(min as nat),
        (Bounds { min: Some(min), max: Some(max) }).admits(max as nat),
        min > 0 ==> !(Bounds { min: Some(min), max: Some(max) }).admits((min - 1) as nat),
        !(Bounds { min: Some(min), max: Some(max) }).admits((max + 1) as nat),
{
}

/// Bounds on a number are inclusive: the least and the greatest number
/// allowed pass, the next below and the next above do not.
pub proof fn law_range_is_inclusive(min: i128, max: i128)
    requires
        min <= max,
    ensures
        (Range { min: Some(min), max: Some(max) }).admits(min as int),
        (Range { min: Some(min), max: Some(max) }).admits(max as int),
        !(Range { min: Some(min), max: Some(max) }).admits(min - 1),
        !(Range { min: Some(min), max: Some(max) }).admits(max + 1),
{
}

/// Where nothing is declared inside the elements of a list, the report of
/// the list has one child for each element that has errors, under the
/// index of that element, in the order of the list, and no other child.
pub proof fn law_one_child_for_each_failing_element<C: Context>(
    checks: Checks,
    items: Seq<Value>,
    ctx: &C,
    path: Seq<SegmentView>,
)
    requires
        checks.nested is None,
        items.len() <= usize::MAX,
    ensures
        items_children(Seq::empty(), checks, items, ctx, path, items.len()) == indices(
            items.len(),
        ).filter_map(element_child(checks, items, ctx, path)),
        items_children(Seq::empty(), checks, items, ctx, path, items.len()).len() == indices(
            items.len(),
        ).filter(element_fails(checks, items, ctx)).len(),
{
    lemma_element_children(checks, items, ctx, path, items.len());
    assert(indices(items.len()).take(items.len() as int) =~= indices(items.len()));
    lemma_element_count(indices(items.len()), checks, items, ctx, path);
}

proof fn lemma_element_children<C: Context>(
    checks: Checks,
    items: Seq<Value>,
    ctx: &C,
    path: Seq<SegmentView>,
    n: nat,
)
    requires
        checks.nested is None,
        n <= items.len() <= usize::MAX,
    ensures
        items_children(Seq::empty(), checks, items, ctx, path, n) == indices(items.len()).take(
            n as int,
        ).filter_map(element_child(checks, items, ctx, path)),
    decreases n,
{
    let all = indices(items.len());
    let child = element_child(checks, items, ctx, path);
    if n == 0 {
        assert(all.take(0) =~= Seq::<int>::empty());
    } else {
        lemma_element_children(checks, items, ctx, path, (n - 1) as nat);
        all.lemma_filter_map_take_succ(child, n - 1);
        let front = items_children(Seq::empty(), checks, items, ctx, path, (n - 1) as nat);
        let place = path.push(SegmentView::Index((n - 1) as usize));
        let own = ReportView::Flat(place, checks.messages(items[n - 1], ctx));
        assert(checks.inside(items[n - 1], ctx, place) is None);
        assert(own.leaves().len() == checks.messages(items[n - 1], ctx).len());
        assert(with_place(front, (n - 1) as usize, checks, items[n - 1], ctx, place) == attach(
            front,
            (n - 1) as usize,
            own,
        ));
        assert(items_children(Seq::empty(), checks, items, ctx, path, n) == with_place(
            front,
            (n - 1) as usize,
            checks,
            items[n - 1],
            ctx,
            place,
        ));
        assert(all[n - 1] == n - 1);
        assert(items_children(Seq::empty(), checks, items, ctx, path, n) =~= all.take(
            n as int,
        ).filter_map(child));
    }
}

proof fn lemma_element_count<C: Context>(
    picked: Seq<int>,
    checks: Checks,
    items: Seq<Value>,
    ctx: &C,
    path: Seq<SegmentView>,
)
    ensures
        picked.filter_map(element_child(checks, items, ctx, path)).len() == picked.filter(
            element_fails(checks, items, ctx),
        ).len(),
    decreases picked.len(),
{
    reveal(Seq::filter);
    if picked.len() > 0 {
        lemma_element_count(picked.drop_last(), checks, items, ctx, path);
    }
}

/// No empty report is attached anywhere inside the report of a validation.
pub proof fn law_report_is_well_formed<C: Context>(
    shape: Shape,
    value: Value,
    ctx: &C,
    path: Seq<SegmentView>,
)
    ensures
        shape.report(value, ctx, path).well_formed(),
    decreases shape, 0nat,
{
    match shape {
        Shape::Composite(composite) => match value {
            Value::Composite(values) => {
                lemma_fields_well_formed(
                    Seq::empty(),
                    composite.fields@,
                    values@,
                    ctx,
                    path,
                    values@.len(),
                );
            },
            _ => {},
        },
        Shape::Union(union) => match value {
            Value::Variant(tag, values) => {
                if union.fits(value) {
                    let variant = union.variants@[tag as int];
                    lemma_fields_well_formed(
                        Seq::empty(),
                        variant.fields@,
                        values@,
                        ctx,
                        path.push(SegmentView::Key(variant.name@)),
                        values@.len(),
                    );
                    law_attach_keeps_well_formed(
                        Seq::empty(),
                        variant.name@,
                        ReportView::Keyed(
                            fields_children(
                                Seq::empty(),
                                variant.fields@,
                                values@,
                                ctx,
                                path.push(SegmentView::Key(variant.name@)),
                                values@.len(),
                            ),
                        ),
                    );
                }
            },
            _ => {},
        },
        Shape::Sequence(sequence) => match value {
            Value::List(items) => {
                lemma_items_well_formed(
                    Seq::empty(),
                    sequence.element,
                    items@,
                    ctx,
                    path,
                    items@.len(),
                );
            },
            _ => {},
        },
    }
}

/// Attaching a well-formed child keeps a list of children well formed: an
/// empty child is left out, so none is ever attached.
pub proof fn law_attach_keeps_well_formed<K>(
    children: Seq<(K, ReportView)>,
    key: K,
    child: ReportView,
)
    requires
        children_well_formed(children),
        child.well_formed(),
    ensures
        children_well_formed(attach(children, key, child)),
{
    if !child.is_empty() {
        assert(children.push((key, child)).drop_last() =~= children);
    }
}

proof fn lemma_place_well_formed<C: Context, K>(
    children: Seq<(K, ReportView)>,
    key: K,
    checks: Checks,
    value: Value,
    ctx: &C,
    path: Seq<SegmentView>,
)
    requires
        children_well_formed(children),
    ensures
        children_well_formed(with_place(children, key, checks, value, ctx, path)),
    decreases checks, 1nat,
{
    let flat = ReportView::Flat(path, checks.messages(value, ctx));
    law_attach_keeps_well_formed(children, key, flat);
    let own = attach(children, key, flat);
    if !(value is Absent) {
        match checks.nested {
            Some(shape) => {
                law_report_is_well_formed(*shape, value, ctx, path);
                law_attach_keeps_well_formed(own, key, shape.report(value, ctx, path));
            },
            None => {},
        }
    }
}

proof fn lemma_fields_well_formed<C: Context>(
    base: Seq<(Seq<char>, ReportView)>,
    fields: Seq<Field>,
    values: Seq<Value>,
    ctx: &C,
    path: Seq<SegmentView>,
    n: nat,
)
    requires
        children_well_formed(base),
    ensures
        children_well_formed(fields_children(base, fields, values, ctx, path, n)),
    decreases fields, n,
{
    if !(n == 0 || n > fields.len() || n > values.len()) {
        lemma_fields_well_formed(base, fields, values, ctx, path, (n - 1) as nat);
        match fields[n - 1].plan {
            Plan::Check(checks) => {
                lemma_place_well_formed(
                    fields_children(base, fields, values, ctx, path, (n - 1) as nat),
                    fields[n - 1].name@,
                    checks,
                    values[n - 1],
                    ctx,
                    path.push(SegmentView::Key(fields[n - 1].name@)),
                );
            },
            _ => {},
        }
    }
}

proof fn lemma_items_well_formed<C: Context>(
    base: Seq<(usize, ReportView)>,
    checks: Checks,
    items: Seq<Value>,
    ctx: &C,
    path: Seq<SegmentView>,
    n: nat,
)
    requires
        children_well_formed(base),
    ensures
        children_well_formed(items_children(base, checks, items, ctx, path, n)),
    decreases checks, n + 2,
{
    if !(n == 0 || n > items.len()) {
        lemma_items_well_formed(base, checks, items, ctx, path, (n - 1) as nat);
        lemma_place_well_formed(
            items_children(base, checks, items, ctx, path, (n - 1) as nat),
            (n - 1) as usize,
            checks,
            items[n - 1],
            ctx,
            path.push(SegmentView::Index((n - 1) as usize)),
        );
    }
}

/// Every error of a validation is filed where it belongs: the errors of a
/// value are at the path of that value, and the report of what is inside it
/// hangs under the index or the name that leads there.
pub proof fn law_report_is_located<C: Context>(
    shape: Shape,
    value: Value,
    ctx: &C,
    path: Seq<SegmentView>,
)
    ensures
        shape.report(value, ctx, path).located(path),
    decreases shape, 0nat,
{
    match shape {
        Shape::Composite(composite) => match value {
            Value::Composite(values) => {
                lemma_fields_located(
                    Seq::empty(),
                    composite.fields@,
                    values@,
                    ctx,
                    path,
                    values@.len(),
                );
            },
            _ => {},
        },
        Shape::Union(union) => match value {
            Value::Variant(tag, values) => {
                if union.fits(value) {
                    let variant = union.variants@[tag as int];
                    let place = path.push(SegmentView::Key(variant.name@));
                    lemma_fields_located(
                        Seq::empty(),
                        variant.fields@,
                        values@,
                        ctx,
                        place,
                        values@.len(),
                    );
                    lemma_attach_keyed_located(
                        Seq::empty(),
                        variant.name@,
                        ReportView::Keyed(
                            fields_children(
                                Seq::empty(),
                                variant.fields@,
                                values@,
                                ctx,
                                place,
                                values@.len(),
                            ),
                        ),
                        path,
                    );
                }
            },
            _ => {},
        },
        Shape::Sequence(sequence) => match value {
            Value::List(items) => {
                lemma_items_located(
                    Seq::empty(),
                    sequence.element,
                    items@,
                    ctx,
                    path,
                    items@.len(),
                );
            },
            _ => {},
        },
    }
}

proof fn lemma_attach_keyed_located(
    children: Seq<(Seq<char>, ReportView)>,
    name: Seq<char>,
    child: ReportView,
    path: Seq<SegmentView>,
)
    requires
        keyed_located(children, path),
        child.located(path.push(SegmentView::Key(name))),
    ensures
        keyed_located(attach(children, name, child), path),
{
    if !child.is_empty() {
        assert(children.push((name, child)).drop_last() =~= children);
    }
}

proof fn lemma_attach_indexed_located(
    children: Seq<(usize, ReportView)>,
    index: usize,
    child: ReportView,
    path: Seq<SegmentView>,
)
    requires
        indexed_located(children, path),
        child.located(path.push(SegmentView::Index(index))),
    ensures
        indexed_located(attach(children, index, child), path),
{
    if !child.is_empty() {
        assert(children.push((index, child)).drop_last() =~= children);
    }
}

proof fn lemma_inside_located<C: Context>(
    checks: Checks,
    value: Value,
    ctx: &C,
    place: Seq<SegmentView>,
)
    ensures
        checks.inside(value, ctx, place) matches Some(report) ==> report.located(place),
    decreases checks, 0nat,
{
    if !(value is Absent) {
        match checks.nested {
            Some(shape) => {
                law_report_is_located(*shape, value, ctx, place);
            },
            None => {},
        }
    }
}

proof fn lemma_fields_located<C: Context>(
    base: Seq<(Seq<char>, ReportView)>,
    fields: Seq<Field>,
    values: Seq<Value>,
    ctx: &C,
    path: Seq<SegmentView>,
    n: nat,
)
    requires
        keyed_located(base, path),
    ensures
        keyed_located(fields_children(base, fields, values, ctx, path, n), path),
    decreases fields, n,
{
    if !(n == 0 || n > fields.len() || n > values.len()) {
        lemma_fields_located(base, fields, values, ctx, path, (n - 1) as nat);
        match fields[n - 1].plan {
            Plan::Check(checks) => {
                let front = fields_children(base, fields, values, ctx, path, (n - 1) as nat);
                let name = fields[n - 1].name@;
                let place = path.push(SegmentView::Key(name));
                let flat = ReportView::Flat(place, checks.messages(values[n - 1], ctx));
                lemma_attach_keyed_located(front, name, flat, path);
                lemma_inside_located(checks, values[n - 1], ctx, place);
                match checks.inside(values[n - 1], ctx, place) {
                    Some(report) => {
                        lemma_attach_keyed_located(attach(front, name, flat), name, report, path);
                    },
                    None => {},
                }
                assert(fields_children(base, fields, values, ctx, path, n) == with_place(
                    front,
                    name,
                    checks,
                    values[n - 1],
                    ctx,
                    place,
                ));
            },
            _ => {},
        }
    }
}

proof fn lemma_items_located<C: Context>(
    base: Seq<(usize, ReportView)>,
    checks: Checks,
    items: Seq<Value>,
    ctx: &C,
    path: Seq<SegmentView>,
    n: nat,
)
    requires
        indexed_located(base, path),
    ensures
        indexed_located(items_children(base, checks, items, ctx, path, n), path),
    decreases checks, n + 2,
{
    if !(n == 0 || n > items.len()) {
        lemma_items_located(base, checks, items, ctx, path, (n - 1) as nat);
        let front = items_children(base, checks, items, ctx, path, (n - 1) as nat);
        let index = (n - 1) as usize;
        let place = path.push(SegmentView::Index(index));
        let flat = ReportView::Flat(place, checks.messages(items[n - 1], ctx));
        lemma_attach_indexed_located(front, index, flat, path);
        lemma_inside_located(checks, items[n - 1], ctx, place);
        match checks.inside(items[n - 1], ctx, place) {
            Some(report) => {
                lemma_attach_indexed_located(attach(front, index, flat), index, report, path);
            },
            None => {},
        }
        assert(items_children(base, checks, items, ctx, path, n) == with_place(
            front,
            index,
            checks,
            items[n - 1],
            ctx,
            place,
        ));
    }
}

/// No error of a located report is filed outside the value that the report
/// is about: the path of every leaf begins with the path of that value.
pub proof fn law_leaves_lie_below(report: ReportView, path: Seq<SegmentView>)
    requires
        report.located(path),
    ensures
        forall|i: int|
            0 <= i < report.leaves().len() ==> path.is_prefix_of(
                (#[trigger] report.leaves()[i]).0,
            ),
    decreases report,
{
    match report {
        ReportView::Flat(place, messages) => {
            assert forall|i: int| 0 <= i < report.leaves().len() implies path.is_prefix_of(
                (#[trigger] report.leaves()[i]).0,
            ) by {
                assert(report.leaves()[i].0 == path);
                assert(path.subrange(0, path.len() as int) =~= path);
            }
        },
        ReportView::Indexed(children) => {
            lemma_indexed_leaves_lie_below(children, path);
            assert(report.leaves() == children_leaves(children));
        },
        ReportView::Keyed(children) => {
            lemma_keyed_leaves_lie_below(children, path);
            assert(report.leaves() == children_leaves(children));
        },
    }
}

proof fn lemma_indexed_leaves_lie_below(
    children: Seq<(usize, ReportView)>,
    path: Seq<SegmentView>,
)
    requires
        indexed_located(children, path),
    ensures
        forall|i: int|
            0 <= i < children_leaves(children).len() ==> path.is_prefix_of(
                (#[trigger] children_leaves(children)[i]).0,
            ),
    decreases children,
{
    if children.len() > 0 {
        let place = path.push(SegmentView::Index(children.last().0));
        let front = children_leaves(children.drop_last());
        let back = children.last().1.leaves();
        lemma_indexed_leaves_lie_below(children.drop_last(), path);
        law_leaves_lie_below(children.last().1, place);
        assert(place.subrange(0, path.len() as int) =~= path);
        lemma_below_the_next_step(back, path, place);
        assert forall|i: int| 0 <= i < children_leaves(children).len() implies path.is_prefix_of(
            (#[trigger] children_leaves(children)[i]).0,
        ) by {
            if i < front.len() {
                assert(children_leaves(children)[i] == front[i]);
            } else {
                assert(children_leaves(children)[i] == back[i - front.len()]);
            }
        }
    }
}

proof fn lemma_keyed_leaves_lie_below(
    children: Seq<(Seq<char>, ReportView)>,
    path: Seq<SegmentView>,
)
    requires
        keyed_located(children, path),
    ensures
        forall|i: int|
            0 <= i < children_leaves(children).len() ==> path.is_prefix_of(
                (#[trigger] children_leaves(children)[i]).0,
            ),
    decreases children,
{
    if children.len() > 0 {
        let place = path.push(SegmentView::Key(children.last().0));
        let front = children_leaves(children.drop_last());
        let back = children.last().1.leaves();
        lemma_keyed_leaves_lie_below(children.drop_last(), path);
        law_leaves_lie_below(children.last().1, place);
        assert(place.subrange(0, path.len() as int) =~= path);
        lemma_below_the_next_step(back, path, place);
        assert forall|i: int| 0 <= i < children_leaves(children).len() implies path.is_prefix_of(
            (#[trigger] children_leaves(children)[i]).0,
        ) by {
            if i < front.len() {
                assert(children_leaves(children)[i] == front[i]);
            } else {
                assert(children_leaves(children)[i] == back[i - front.len()]);
            }
        }
    }
}

proof fn lemma_below_the_next_step(
    leaves: Seq<(Seq<SegmentView>, Seq<char>)>,
    path: Seq<SegmentView>,
    place: Seq<SegmentView>,
)
    requires
        path.is_prefix_of(place),
        forall|i: int| 0 <= i < leaves.len() ==> place.is_prefix_of((#[trigger] leaves[i]).0),
    ensures
        forall|i: int| 0 <= i < leaves.len() ==> path.is_prefix_of((#[trigger] leaves[i]).0),
{
    assert forall|i: int| 0 <= i < leaves.len() implies path.is_prefix_of(
        (#[trigger] leaves[i]).0,
    ) by {
        let leaf = leaves[i].0;
        assert(place.is_prefix_of(leaf));
        assert(path =~= leaf.subrange(0, path.len() as int));
    }
}

} // verus!
