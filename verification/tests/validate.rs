use garde::declare::{Checks, Composite, Field, Plan, Rule, Sequence, Shape, Union, Variant};
use garde::report::Report;
use garde::rules::{Bounds, Range};
use garde::value::Value;

fn checked(name: &str, checks: Checks) -> Field {
    Field { name: name.to_string(), plan: Plan::Check(checks) }
}

fn rules(rules: Vec<Rule>) -> Checks {
    Checks { optional: false, required: false, rules, nested: None }
}

fn composite(fields: Vec<Field>) -> Shape {
    Shape::Composite(Composite { fields, allow_unvalidated: false })
}

fn text(text: &str) -> Value {
    Value::Text(text.to_string())
}

/// The leaves of a failed validation as (path, message) pairs of text.
fn leaves(outcome: Result<(), Report>) -> Vec<(String, String)> {
    match outcome {
        Ok(()) => Vec::new(),
        Err(report) => report
            .leaves()
            .iter()
            .map(|(path, error)| (path.render(), error.message().to_string()))
            .collect(),
    }
}

fn leaf(path: &str, message: &str) -> (String, String) {
    (path.to_string(), message.to_string())
}

fn user() -> Shape {
    composite(vec![checked(
        "username",
        rules(vec![Rule::Length(Bounds { min: Some(3), max: Some(25) }), Rule::Ascii]),
    )])
}

#[test]
fn short_username_fails_length_only() {
    let outcome = user().validate(&Value::Composite(vec![text("ab")]), &());
    assert_eq!(leaves(outcome), vec![leaf("username", "length out of bounds")]);
}

#[test]
fn short_non_ascii_username_fails_both_rules() {
    let outcome = user().validate(&Value::Composite(vec![text("é")]), &());
    assert_eq!(
        leaves(outcome),
        vec![leaf("username", "length out of bounds"), leaf("username", "not ascii")]
    );
}

#[test]
fn good_username_passes() {
    assert!(user().validate(&Value::Composite(vec![text("test")]), &()).is_ok());
}

fn required_value() -> Shape {
    composite(vec![checked(
        "value",
        Checks {
            optional: true,
            required: true,
            rules: vec![Rule::Length(Bounds { min: Some(1), max: None })],
            nested: None,
        },
    )])
}

#[test]
fn absent_required_value_gets_one_error() {
    let outcome = required_value().validate(&Value::Composite(vec![Value::Absent]), &());
    assert_eq!(leaves(outcome), vec![leaf("value", "value is required")]);
}

#[test]
fn empty_required_value_fails_length() {
    let outcome = required_value().validate(&Value::Composite(vec![text("")]), &());
    assert_eq!(leaves(outcome), vec![leaf("value", "length out of bounds")]);
}

#[test]
fn absent_optional_value_passes_every_rule() {
    let shape = composite(vec![checked(
        "value",
        Checks {
            optional: true,
            required: false,
            rules: vec![Rule::Length(Bounds { min: Some(1), max: None }), Rule::Ascii],
            nested: None,
        },
    )]);
    assert!(shape.validate(&Value::Composite(vec![Value::Absent]), &()).is_ok());
}

fn items() -> Shape {
    composite(vec![checked(
        "items",
        Checks {
            optional: false,
            required: false,
            rules: vec![Rule::Length(Bounds { min: Some(1), max: None })],
            nested: Some(Box::new(Shape::Sequence(Sequence { element: rules(vec![Rule::Ascii]) }))),
        },
    )])
}

#[test]
fn empty_list_fails_its_own_length() {
    let outcome = items().validate(&Value::Composite(vec![Value::List(vec![])]), &());
    assert_eq!(leaves(outcome), vec![leaf("items", "length out of bounds")]);
}

#[test]
fn bad_element_is_reported_at_its_index() {
    let value = Value::Composite(vec![Value::List(vec![text("ok"), text("é")])]);
    let outcome = items().validate(&value, &());
    assert_eq!(leaves(outcome), vec![leaf("items[1]", "not ascii")]);
}

#[test]
fn list_and_element_errors_both_stay() {
    let shape = composite(vec![checked(
        "items",
        Checks {
            optional: false,
            required: false,
            rules: vec![Rule::Length(Bounds { min: Some(2), max: None })],
            nested: Some(Box::new(Shape::Sequence(Sequence { element: rules(vec![Rule::Ascii]) }))),
        },
    )]);
    let value = Value::Composite(vec![Value::List(vec![text("é")])]);
    let report = shape.validate(&value, &()).unwrap_err();
    assert_eq!(report.render(), "items: length out of bounds\nitems[0]: not ascii\n");
    match report {
        Report::Keyed(children) => {
            assert_eq!(children.len(), 2);
            assert_eq!(children[0].0.as_str(), "items");
            assert!(matches!(children[0].1, Report::Flat(_, _)));
            assert_eq!(children[1].0.as_str(), "items");
            assert!(matches!(children[1].1, Report::Indexed(_)));
        }
        _ => panic!("the report of a composite is keyed"),
    }
}

fn a_or_b() -> Shape {
    let range = Rule::Range(Range { min: Some(-10), max: Some(10) });
    Shape::Union(Union {
        variants: vec![
            Variant { name: "A".to_string(), fields: vec![checked("x", rules(vec![range]))] },
            Variant { name: "B".to_string(), fields: vec![checked("y", rules(vec![Rule::Ascii]))] },
        ],
        allow_unvalidated: false,
    })
}

#[test]
fn active_variant_is_reported_under_its_tag() {
    let outcome = a_or_b().validate(&Value::Variant(0, vec![Value::Integer(100)]), &());
    assert_eq!(leaves(outcome), vec![leaf("A.x", "value out of bounds")]);
}

#[test]
fn inactive_variant_contributes_nothing() {
    assert!(a_or_b().validate(&Value::Variant(0, vec![Value::Integer(3)]), &()).is_ok());
    let outcome = a_or_b().validate(&Value::Variant(1, vec![text("é")]), &());
    assert_eq!(leaves(outcome), vec![leaf("B.y", "not ascii")]);
}

#[test]
fn validate_succeeds_exactly_when_the_report_is_empty() {
    let shape = user();
    for name in ["ab", "abc", "é", "test", ""] {
        let value = Value::Composite(vec![text(name)]);
        let report = shape.validate_at(&value, &(), &garde::path::Path::empty());
        let outcome = shape.validate(&value, &());
        assert_eq!(outcome.is_ok(), report.is_empty());
        if let Err(found) = outcome {
            assert!(!found.is_empty());
            assert_eq!(found.render(), report.render());
        }
    }
}

#[test]
fn validating_twice_gives_the_same_report() {
    let value = Value::Composite(vec![Value::List(vec![text("é"), text("a"), text("ü")])]);
    let first = items().validate(&value, &()).unwrap_err();
    let second = items().validate(&value, &()).unwrap_err();
    assert_eq!(first.render(), second.render());
    assert_eq!(first.render(), "items[0]: not ascii\nitems[2]: not ascii\n");
    assert_eq!(leaves(Err(first)), leaves(Err(second)));
}

#[test]
fn every_failing_rule_gets_an_error() {
    let shape = composite(vec![checked(
        "name",
        rules(vec![
            Rule::Ascii,
            Rule::Length(Bounds { min: None, max: Some(10) }),
            Rule::Alphanumeric,
            Rule::Prefix("x".to_string()),
        ]),
    )]);
    let outcome = shape.validate(&Value::Composite(vec![text("é!")]), &());
    assert_eq!(
        leaves(outcome),
        vec![
            leaf("name", "not ascii"),
            leaf("name", "not alphanumeric"),
            leaf("name", "does not begin with \"x\""),
        ]
    );
}

#[test]
fn failing_elements_keep_their_indices() {
    let shape = Shape::Sequence(Sequence { element: rules(vec![Rule::Ascii]) });
    let value = Value::List(vec![text("a"), text("é"), text("b"), text("ü"), text("c")]);
    let report = shape.validate(&value, &()).unwrap_err();
    match &report {
        Report::Indexed(children) => {
            let indices: Vec<usize> = children.iter().map(|child| child.0).collect();
            assert_eq!(indices, vec![1, 3]);
        }
        _ => panic!("the report of a list is indexed"),
    }
    assert_eq!(report.render(), "[1]: not ascii\n[3]: not ascii\n");
}

#[test]
fn nested_composites_keep_the_whole_path() {
    let inner = composite(vec![checked("c", rules(vec![Rule::Ascii]))]);
    let list = Shape::Sequence(Sequence {
        element: Checks { optional: false, required: false, rules: vec![], nested: Some(Box::new(inner)) },
    });
    let b = composite(vec![checked(
        "b",
        Checks { optional: false, required: false, rules: vec![], nested: Some(Box::new(list)) },
    )]);
    let shape = composite(vec![checked(
        "a",
        Checks { optional: false, required: false, rules: vec![], nested: Some(Box::new(b)) },
    )]);
    let element = |text_value: &str| Value::Composite(vec![text(text_value)]);
    let value = Value::Composite(vec![Value::Composite(vec![Value::List(vec![
        element("x"),
        element("y"),
        element("é"),
    ])])]);
    let outcome = shape.validate(&value, &());
    assert_eq!(leaves(outcome), vec![leaf("a.b[2].c", "not ascii")]);
}

#[test]
fn skipped_fields_are_not_validated() {
    let shape = Shape::Composite(Composite {
        fields: vec![
            checked("a", rules(vec![Rule::Length(Bounds { min: Some(1), max: None })])),
            Field { name: "b".to_string(), plan: Plan::Skip },
            Field { name: "c".to_string(), plan: Plan::Unannotated },
        ],
        allow_unvalidated: true,
    });
    assert_eq!(shape.check(), Ok(()));
    let value = Value::Composite(vec![text("x"), text("é"), Value::Integer(7)]);
    assert!(shape.validate(&value, &()).is_ok());
}

#[test]
fn value_of_another_shape_is_an_error() {
    let outcome = user().validate(&text("ab"), &());
    assert_eq!(leaves(outcome), vec![leaf("", "unexpected shape")]);
    let outcome = user().validate(&Value::Composite(vec![]), &());
    assert_eq!(leaves(outcome), vec![leaf("", "unexpected shape")]);
    let outcome = a_or_b().validate(&Value::Variant(2, vec![]), &());
    assert_eq!(leaves(outcome), vec![leaf("", "unexpected shape")]);
    let outcome = items().validate(&Value::Composite(vec![text("ab")]), &());
    assert_eq!(leaves(outcome), vec![leaf("items", "unexpected shape")]);
    let outcome = items().validate(&Value::Composite(vec![text("")]), &());
    assert_eq!(
        leaves(outcome),
        vec![leaf("items", "length out of bounds"), leaf("items", "unexpected shape")]
    );
}

#[test]
fn rule_on_a_value_without_what_it_reads_fails() {
    let shape = composite(vec![checked("n", rules(vec![Rule::Ascii, Rule::Range(Range { min: Some(0), max: None })]))]);
    let outcome = shape.validate(&Value::Composite(vec![Value::Integer(5)]), &());
    assert_eq!(leaves(outcome), vec![leaf("n", "not ascii")]);
}

#[test]
fn empty_context_fails_every_outside_rule() {
    let shape = composite(vec![checked(
        "t",
        rules(vec![
            Rule::Pattern(0),
            Rule::Format(garde::context::Format::Email),
            Rule::Custom(3),
        ]),
    )]);
    let outcome = shape.validate(&Value::Composite(vec![text("a@b.c")]), &());
    assert_eq!(
        leaves(outcome),
        vec![
            leaf("t", "does not match pattern"),
            leaf("t", "not a valid email"),
            leaf("t", "no such predicate"),
        ]
    );
}
