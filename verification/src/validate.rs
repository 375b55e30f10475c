//! Validation: running a declaration on a value.
//!
//! Every kind of declaration has a worker, `validate_into`, that adds what
//! it finds to a builder of the matching kind, at the path it is given. It
//! always completes: a failure is an error in the builder and nothing else.
//! [`Shape::validate`] is the entry point: it starts at the root and turns
//! the report into an outcome.

use crate::builder::{FlatBuilder, IndexedBuilder, KeyedBuilder};
use crate::context::Context;
use crate::declare::{Checks, Composite, Field, Plan, Rule, Sequence, Shape, Union};
use crate::error::Error;
use crate::laws::{law_report_is_located, law_report_is_well_formed};
use crate::path::{Path, Segment, SegmentView};
use crate::report::{attach, Report, ReportView};
use crate::rules::required;
use crate::value::Value;
use vstd::prelude::*;

verus! {

/// What each rule says of `value` in the context `ctx`.
pub open spec fn verdict_on<C: Context>(value: Value, ctx: &C) -> spec_fn(Rule) -> Option<
    Seq<char>,
> {
    |rule: Rule| rule.verdict(value, ctx)
}

/// The report of a value that does not have the shape that its declaration
/// speaks of.
pub open spec fn mismatch(path: Seq<SegmentView>) -> ReportView {
    ReportView::Flat(path, seq!["unexpected shape"@])
}

/// `children`, with what `checks` finds of `value` attached under `key`:
/// first the errors of the value itself, then the report of what is inside
/// it.
pub open spec fn with_place<C: Context, K>(
    children: Seq<(K, ReportView)>,
    key: K,
    checks: Checks,
    value: Value,
    ctx: &C,
    path: Seq<SegmentView>,
) -> Seq<(K, ReportView)>
    decreases checks, 1nat,
{
    let own = attach(children, key, ReportView::Flat(path, checks.messages(value, ctx)));
    match checks.inside(value, ctx, path) {
        Some(report) => attach(own, key, report),
        None => own,
    }
}

/// `base`, with what the first `n` fields contribute, in the declared
/// order. The composite stands at `path`; each field stands one key
/// further.
pub open spec fn fields_children<C: Context>(
    base: Seq<(Seq<char>, ReportView)>,
    fields: Seq<Field>,
    values: Seq<Value>,
    ctx: &C,
    path: Seq<SegmentView>,
    n: nat,
) -> Seq<(Seq<char>, ReportView)>
    decreases fields, n,
{
    if n == 0 || n > fields.len() || n > values.len() {
        base
    } else {
        let front = fields_children(base, fields, values, ctx, path, (n - 1) as nat);
        match fields[n - 1].plan {
            Plan::Check(checks) => with_place(
                front,
                fields[n - 1].name@,
                checks,
                values[n - 1],
                ctx,
                path.push(SegmentView::Key(fields[n - 1].name@)),
            ),
            _ => front,
        }
    }
}

/// `base`, with what the first `n` elements contribute, in the order of the
/// list. The list stands at `path`; each element stands one index further.
pub open spec fn items_children<C: Context>(
    base: Seq<(usize, ReportView)>,
    checks: Checks,
    items: Seq<Value>,
    ctx: &C,
    path: Seq<SegmentView>,
    n: nat,
) -> Seq<(usize, ReportView)>
    decreases checks, n + 2,
{
    if n == 0 || n > items.len() {
        base
    } else {
        with_place(
            items_children(base, checks, items, ctx, path, (n - 1) as nat),
            (n - 1) as usize,
            checks,
            items[n - 1],
            ctx,
            path.push(SegmentView::Index((n - 1) as usize)),
        )
    }
}

impl Checks {
    /// The messages of the errors of `value` itself: that it is required, if
    /// it is absent and may not be; nothing else of an absent value; else
    /// one message for each rule that it fails, in the order of the rules,
    /// whether or not an earlier rule failed.
    pub open spec fn messages<C: Context>(self, value: Value, ctx: &C) -> Seq<Seq<char>> {
        if value is Absent {
            if self.required {
                seq!["value is required"@]
            } else {
                Seq::empty()
            }
        } else {
            self.rules@.filter_map(verdict_on(value, ctx))
        }
    }

    /// The report of what is inside `value`, where validation goes on
    /// inside it and it is not absent.
    pub open spec fn inside<C: Context>(
        self,
        value: Value,
        ctx: &C,
        path: Seq<SegmentView>,
    ) -> Option<ReportView>
        decreases self, 0nat,
    {
        if value is Absent {
            None
        } else {
            match self.nested {
                Some(shape) => Some(shape.report(value, ctx, path)),
                None => None,
            }
        }
    }

    /// Runs what is declared for this place on `value` itself, and pushes
    /// one error for each failure.
    pub fn validate_into<C: Context>(&self, value: &Value, ctx: &C, builder: &mut FlatBuilder)
        ensures
            final(builder).path() == old(builder).path(),
            final(builder).messages() == old(builder).messages() + self.messages(*value, ctx),
    {
        let ghost before = builder.messages();
        if value.is_absent() {
            if self.required {
                if let Err(error) = required(false) {
                    builder.push(error);
                }
            }
            assert(builder.messages() =~= before + self.messages(*value, ctx));
            return ;
        }
        let ghost says = verdict_on(*value, ctx);
        let mut i: usize = 0;
        assert(builder.messages() =~= before + self.rules@.take(0).filter_map(says));
        while i < self.rules.len()
            invariant
                i <= self.rules.len(),
                says == verdict_on(*value, ctx),
                builder.path() == old(builder).path(),
                builder.messages() == before + self.rules@.take(i as int).filter_map(says),
            decreases self.rules.len() - i,
        {
            if let Err(error) = self.rules[i].apply(value, ctx) {
                builder.push(error);
            }
            proof {
                self.rules@.lemma_filter_map_take_succ(says, i as int);
                assert(builder.messages() =~= before + self.rules@.take(i + 1).filter_map(says));
            }
            i += 1;
        }
        assert(self.rules@.take(i as int) =~= self.rules@);
    }

    /// Validates what is inside `value`, where validation goes on inside
    /// it and it is not absent.
    pub fn validate_inside<C: Context>(&self, value: &Value, ctx: &C, path: &Path) -> (report: Option<
        Report,
    >)
        ensures
            match report {
                Some(found) => self.inside(*value, ctx, path@) == Some(found@),
                None => self.inside(*value, ctx, path@) is None,
            },
        decreases *self,
    {
        if value.is_absent() {
            return None;
        }
        match &self.nested {
            Some(shape) => Some(shape.validate_at(value, ctx, path)),
            None => None,
        }
    }
}

/// Validates `values` against `fields`, one by one.
fn validate_fields<C: Context>(
    fields: &Vec<Field>,
    values: &Vec<Value>,
    ctx: &C,
    path: &Path,
    builder: &mut KeyedBuilder,
)
    requires
        values@.len() == fields@.len(),
    ensures
        final(builder)@ == fields_children(
            old(builder)@,
            fields@,
            values@,
            ctx,
            path@,
            values@.len(),
        ),
    decreases fields,
{
    let ghost base = builder@;
    let mut i: usize = 0;
    while i < fields.len()
        invariant
            i <= fields.len(),
            values@.len() == fields@.len(),
            builder@ == fields_children(base, fields@, values@, ctx, path@, i as nat),
        decreases fields.len() - i,
    {
        let field = &fields[i];
        let ghost front = builder@;
        match &field.plan {
            Plan::Check(checks) => {
                let place = path.join(Segment::key(field.name.as_str()));
                let mut flat = FlatBuilder::new(place.share());
                checks.validate_into(&values[i], ctx, &mut flat);
                assert(flat.messages() =~= checks.messages(values@[i as int], ctx));
                builder.insert(field.name.as_str(), flat.finish());
                let ghost own = builder@;
                assert(own == attach(
                    front,
                    field.name@,
                    ReportView::Flat(place@, checks.messages(values@[i as int], ctx)),
                ));
                match checks.validate_inside(&values[i], ctx, &place) {
                    Some(report) => {
                        builder.insert(field.name.as_str(), report);
                        assert(builder@ == attach(own, field.name@, report@));
                    },
                    None => {},
                }
                assert(builder@ == with_place(
                    front,
                    field.name@,
                    *checks,
                    values@[i as int],
                    ctx,
                    place@,
                ));
            },
            _ => {},
        }
        assert(builder@ == fields_children(base, fields@, values@, ctx, path@, (i + 1) as nat));
        i += 1;
    }
}

impl Composite {
    /// Whether `value` is a composite with as many fields as are declared.
    pub open spec fn fits(self, value: Value) -> bool {
        value matches Value::Composite(values) && values@.len() == self.fields@.len()
    }

    /// Validates the fields of a composite that stands at `path`, in the
    /// declared order, and attaches what each contributes under its name.
    pub fn validate_into<C: Context>(
        &self,
        values: &Vec<Value>,
        ctx: &C,
        path: &Path,
        builder: &mut KeyedBuilder,
    )
        requires
            values@.len() == self.fields@.len(),
        ensures
            final(builder)@ == fields_children(
                old(builder)@,
                self.fields@,
                values@,
                ctx,
                path@,
                values@.len(),
            ),
        decreases *self,
    {
        validate_fields(&self.fields, values, ctx, path, builder);
    }
}

impl Union {
    /// Whether `value` is one of the declared variants, with as many fields
    /// as that variant declares.
    pub open spec fn fits(self, value: Value) -> bool {
        value matches Value::Variant(tag, values) && tag < self.variants@.len() && values@.len()
            == self.variants@[tag as int].fields@.len()
    }

    /// What the active variant contributes: one child under the variant's
    /// tag, which holds what its fields contribute. The fields stand one
    /// key, the tag, further than the value.
    pub open spec fn children<C: Context>(
        self,
        base: Seq<(Seq<char>, ReportView)>,
        tag: usize,
        values: Seq<Value>,
        ctx: &C,
        path: Seq<SegmentView>,
    ) -> Seq<(Seq<char>, ReportView)>
        decreases self, 0nat,
    {
        if tag < self.variants@.len() {
            let variant = self.variants@[tag as int];
            attach(
                base,
                variant.name@,
                ReportView::Keyed(
                    fields_children(
                        Seq::empty(),
                        variant.fields@,
                        values,
                        ctx,
                        path.push(SegmentView::Key(variant.name@)),
                        values.len(),
                    ),
                ),
            )
        } else {
            base
        }
    }

    /// Validates the fields of the variant at `tag`, and of no other, and
    /// attaches what they contribute under the variant's tag.
    pub fn validate_into<C: Context>(
        &self,
        tag: usize,
        values: &Vec<Value>,
        ctx: &C,
        path: &Path,
        builder: &mut KeyedBuilder,
    )
        requires
            tag < self.variants@.len(),
            values@.len() == self.variants@[tag as int].fields@.len(),
        ensures
            final(builder)@ == self.children(old(builder)@, tag, values@, ctx, path@),
        decreases *self,
    {
        let variant = &self.variants[tag];
        let place = path.join(Segment::key(variant.name.as_str()));
        let mut fields = KeyedBuilder::new();
        validate_fields(&variant.fields, values, ctx, &place, &mut fields);
        builder.insert(variant.name.as_str(), fields.finish());
    }
}

impl Sequence {
    /// Validates the elements of a list that stands at `path`, in order,
    /// and attaches what each contributes under its index.
    pub fn validate_into<C: Context>(
        &self,
        items: &Vec<Value>,
        ctx: &C,
        path: &Path,
        builder: &mut IndexedBuilder,
    )
        ensures
            final(builder)@ == items_children(
                old(builder)@,
                self.element,
                items@,
                ctx,
                path@,
                items@.len(),
            ),
        decreases *self,
    {
        let ghost base = builder@;
        let mut i: usize = 0;
        while i < items.len()
            invariant
                i <= items.len(),
                builder@ == items_children(base, self.element, items@, ctx, path@, i as nat),
            decreases items.len() - i,
        {
            let ghost front = builder@;
            let place = path.join(Segment::index(i));
            let mut flat = FlatBuilder::new(place.share());
            self.element.validate_into(&items[i], ctx, &mut flat);
            assert(flat.messages() =~= self.element.messages(items@[i as int], ctx));
            builder.insert(i, flat.finish());
            let ghost own = builder@;
            assert(own == attach(
                front,
                i,
                ReportView::Flat(place@, self.element.messages(items@[i as int], ctx)),
            ));
            match self.element.validate_inside(&items[i], ctx, &place) {
                Some(report) => {
                    builder.insert(i, report);
                    assert(builder@ == attach(own, i, report@));
                },
                None => {},
            }
            assert(builder@ == with_place(
                front,
                i,
                self.element,
                items@[i as int],
                ctx,
                place@,
            ));
            assert(builder@ == items_children(
                base,
                self.element,
                items@,
                ctx,
                path@,
                (i + 1) as nat,
            ));
            i += 1;
        }
    }
}

impl Shape {
    /// The report of `value`, which stands at `path`: keyed for a composite
    /// and for a variant, indexed for a list, and one error at `path` for a
    /// value of another shape than the declaration speaks of.
    pub open spec fn report<C: Context>(
        self,
        value: Value,
        ctx: &C,
        path: Seq<SegmentView>,
    ) -> ReportView
        decreases self, 0nat,
    {
        match self {
            Shape::Composite(composite) => match value {
                Value::Composite(values) => if composite.fits(value) {
                    ReportView::Keyed(
                        fields_children(
                            Seq::empty(),
                            composite.fields@,
                            values@,
                            ctx,
                            path,
                            values@.len(),
                        ),
                    )
                } else {
                    mismatch(path)
                },
                _ => mismatch(path),
            },
            Shape::Union(union) => match value {
                Value::Variant(tag, values) => if union.fits(value) {
                    ReportView::Keyed(union.children(Seq::empty(), tag, values@, ctx, path))
                } else {
                    mismatch(path)
                },
                _ => mismatch(path),
            },
            Shape::Sequence(sequence) => match value {
                Value::List(items) => ReportView::Indexed(
                    items_children(
                        Seq::empty(),
                        sequence.element,
                        items@,
                        ctx,
                        path,
                        items@.len(),
                    ),
                ),
                _ => mismatch(path),
            },
        }
    }

    /// Validates `value`, which stands at `path`, and gives its report. No
    /// empty report is attached inside it, and every error in it is filed
    /// at or below `path`, where its place in the report says.
    pub fn validate_at<C: Context>(&self, value: &Value, ctx: &C, path: &Path) -> (report: Report)
        ensures
            report@ == self.report(*value, ctx, path@),
            report@.well_formed(),
            report@.located(path@),
        decreases *self,
    {
        proof {
            law_report_is_well_formed(*self, *value, ctx, path@);
            law_report_is_located(*self, *value, ctx, path@);
        }
        match self {
            Shape::Composite(composite) => match value {
                Value::Composite(values) => if values.len() == composite.fields.len() {
                    let mut builder = KeyedBuilder::new();
                    composite.validate_into(values, ctx, path, &mut builder);
                    return builder.finish();
                },
                _ => {},
            },
            Shape::Union(union) => match value {
                Value::Variant(tag, values) => if *tag < union.variants.len() && values.len()
                    == union.variants[*tag].fields.len() {
                    let mut builder = KeyedBuilder::new();
                    union.validate_into(*tag, values, ctx, path, &mut builder);
                    return builder.finish();
                },
                _ => {},
            },
            Shape::Sequence(sequence) => match value {
                Value::List(items) => {
                    let mut builder = IndexedBuilder::new();
                    sequence.validate_into(items, ctx, path, &mut builder);
                    return builder.finish();
                },
                _ => {},
            },
        }
        let mut builder = FlatBuilder::new(path.share());
        builder.push(Error::new("unexpected shape"));
        let report = builder.finish();
        assert(report@ =~= mismatch(path@)) by {
            assert(Seq::<Seq<char>>::empty().push("unexpected shape"@) =~= seq![
                "unexpected shape"@,
            ]);
        }
        report
    }

    /// Whether `outcome` is what validating `value` from the root comes to:
    /// success where the report is empty, and else the report.
    pub open spec fn yields<C: Context>(
        self,
        value: Value,
        ctx: &C,
        outcome: Result<(), Report>,
    ) -> bool {
        let report = self.report(value, ctx, Seq::empty());
        match outcome {
            Ok(_) => report.is_empty(),
            Err(found) => !report.is_empty() && found@ == report,
        }
    }

    /// Validates `value` from the root. Succeeds when nothing is wrong with
    /// it, and else fails with the report of everything that is.
    ///
    /// The declaration is taken as it stands: its faults are for
    /// [`Shape::check`] to find, once, before the first value is validated.
    pub fn validate<C: Context>(&self, value: &Value, ctx: &C) -> (outcome: Result<(), Report>)
        ensures
            outcome is Ok <==> self.report(*value, ctx, Seq::empty()).is_empty(),
            outcome matches Err(report) ==> report@ == self.report(*value, ctx, Seq::empty()),
            outcome matches Err(report) ==> report@.well_formed() && report@.located(
                Seq::empty(),
            ),
            self.yields(*value, ctx, outcome),
    {
        let report = self.validate_at(value, ctx, &Path::empty());
        if report.is_empty() {
            Ok(())
        } else {
            Err(report)
        }
    }
}

} // verus!
