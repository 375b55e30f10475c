use garde::context::Format;
use garde::declare::{Checks, Composite, ConfigError, Field, Plan, Rule, Sequence, Shape, Union, Variant};
use garde::rules;
use garde::rules::{Bounds, Range};
use garde::value::Value;

fn message(outcome: Result<(), garde::error::Error>) -> Option<String> {
    outcome.err().map(|error| error.message().to_string())
}

#[test]
fn ascii_rule() {
    assert!(rules::ascii("").is_ok());
    assert!(rules::ascii("plain text 123 ~").is_ok());
    assert_eq!(message(rules::ascii("é")), Some("not ascii".to_string()));
    assert_eq!(message(rules::ascii("a😂")), Some("not ascii".to_string()));
}

#[test]
fn alphanumeric_rule() {
    assert!(rules::alphanumeric("").is_ok());
    assert!(rules::alphanumeric("abc123").is_ok());
    assert!(rules::alphanumeric("é٣").is_ok());
    assert_eq!(message(rules::alphanumeric("a b")), Some("not alphanumeric".to_string()));
    assert_eq!(message(rules::alphanumeric("😂")), Some("not alphanumeric".to_string()));
    assert_eq!(message(rules::alphanumeric("ab_")), Some("not alphanumeric".to_string()));
}

#[test]
fn length_bounds_are_inclusive() {
    let bounds = Bounds { min: Some(3), max: Some(5) };
    assert!(rules::length(3, &bounds).is_ok());
    assert!(rules::length(4, &bounds).is_ok());
    assert!(rules::length(5, &bounds).is_ok());
    assert_eq!(message(rules::length(2, &bounds)), Some("length out of bounds".to_string()));
    assert_eq!(message(rules::length(6, &bounds)), Some("length out of bounds".to_string()));
    assert!(bounds.holds(3) && bounds.holds(5) && !bounds.holds(2) && !bounds.holds(6));
}

#[test]
fn length_with_one_bound() {
    let at_least = Bounds { min: Some(1), max: None };
    assert!(rules::length(1, &at_least).is_ok());
    assert!(rules::length(usize::MAX, &at_least).is_ok());
    assert!(rules::length(0, &at_least).is_err());
    let at_most = Bounds { min: None, max: Some(1) };
    assert!(rules::length(0, &at_most).is_ok());
    assert!(rules::length(1, &at_most).is_ok());
    assert!(rules::length(2, &at_most).is_err());
}

#[test]
fn byte_length_rule() {
    let bounds = Bounds { min: Some(2), max: Some(2) };
    assert!(rules::byte_length(2, &bounds).is_ok());
    assert_eq!(
        message(rules::byte_length(1, &bounds)),
        Some("byte length out of bounds".to_string())
    );
    assert_eq!(
        message(rules::byte_length(3, &bounds)),
        Some("byte length out of bounds".to_string())
    );
}

#[test]
fn range_bounds_are_inclusive() {
    let bounds = Range { min: Some(-10), max: Some(10) };
    assert!(rules::range(-10, &bounds).is_ok());
    assert!(rules::range(0, &bounds).is_ok());
    assert!(rules::range(10, &bounds).is_ok());
    assert_eq!(message(rules::range(-11, &bounds)), Some("value out of bounds".to_string()));
    assert_eq!(message(rules::range(11, &bounds)), Some("value out of bounds".to_string()));
    let open = Range { min: None, max: Some(i128::MIN) };
    assert!(rules::range(i128::MIN, &open).is_ok());
    assert!(rules::range(i128::MIN + 1, &open).is_err());
}

#[test]
fn contains_rule() {
    assert!(rules::contains("hello world", "o w").is_ok());
    assert!(rules::contains("hello", "hello").is_ok());
    assert!(rules::contains("hello", "").is_ok());
    assert!(rules::contains("", "").is_ok());
    assert!(rules::contains("xxab", "ab").is_ok());
    assert!(rules::contains("aé😂b", "é😂").is_ok());
    assert_eq!(message(rules::contains("hello", "world")), Some("does not contain \"world\"".to_string()));
    assert_eq!(message(rules::contains("ab", "abc")), Some("does not contain \"abc\"".to_string()));
    assert_eq!(message(rules::contains("", "a")), Some("does not contain \"a\"".to_string()));
    assert!(rules::contains("aab", "ab").is_ok());
    assert!(rules::contains("aba", "bb").is_err());
}

#[test]
fn prefix_rule() {
    assert!(rules::prefix("hello", "he").is_ok());
    assert!(rules::prefix("hello", "").is_ok());
    assert!(rules::prefix("hello", "hello").is_ok());
    assert_eq!(message(rules::prefix("hello", "lo")), Some("does not begin with \"lo\"".to_string()));
    assert_eq!(message(rules::prefix("he", "hello")), Some("does not begin with \"hello\"".to_string()));
    assert_eq!(message(rules::prefix("", "a")), Some("does not begin with \"a\"".to_string()));
}

#[test]
fn suffix_rule() {
    assert!(rules::suffix("hello", "lo").is_ok());
    assert!(rules::suffix("hello", "").is_ok());
    assert!(rules::suffix("hello", "hello").is_ok());
    assert_eq!(message(rules::suffix("hello", "he")), Some("does not end with \"he\"".to_string()));
    assert_eq!(message(rules::suffix("lo", "hello")), Some("does not end with \"hello\"".to_string()));
}

#[test]
fn verdicts_of_outside_rules() {
    assert!(rules::required(true).is_ok());
    assert_eq!(message(rules::required(false)), Some("value is required".to_string()));
    assert!(rules::pattern(true).is_ok());
    assert_eq!(message(rules::pattern(false)), Some("does not match pattern".to_string()));
    assert!(rules::format(Format::Url, true).is_ok());
    assert_eq!(message(rules::format(Format::Email, false)), Some("not a valid email".to_string()));
    assert_eq!(message(rules::format(Format::Url, false)), Some("not a valid url".to_string()));
    assert_eq!(message(rules::format(Format::Ip, false)), Some("not a valid IP address".to_string()));
    assert_eq!(
        message(rules::format(Format::CreditCard, false)),
        Some("not a valid credit card number".to_string())
    );
    assert_eq!(
        message(rules::format(Format::PhoneNumber, false)),
        Some("not a valid phone number".to_string())
    );
    assert_eq!(message(rules::verdict(false, "no")), Some("no".to_string()));
    assert!(rules::verdict(true, "no").is_ok());
}

#[test]
fn what_a_value_offers() {
    let text = Value::Text("é😂a".to_string());
    assert_eq!(text.as_text(), Some("é😂a"));
    assert_eq!(text.count(), Some(3));
    assert_eq!(text.byte_count(), Some(7));
    assert_eq!(text.as_integer(), None);
    let bytes = Value::Bytes(vec![1, 2]);
    assert_eq!(bytes.as_text(), None);
    assert_eq!(bytes.count(), Some(2));
    assert_eq!(bytes.byte_count(), Some(2));
    let list = Value::List(vec![Value::Absent, Value::Integer(1), Value::Absent]);
    assert_eq!(list.count(), Some(3));
    assert_eq!(list.byte_count(), None);
    let number = Value::Integer(-4);
    assert_eq!(number.as_integer(), Some(-4));
    assert_eq!(number.count(), None);
    assert!(Value::Absent.is_absent());
    assert!(!number.is_absent());
    assert_eq!(Value::Absent.count(), None);
    assert_eq!(Value::Composite(vec![]).count(), None);
    assert_eq!(Value::Variant(0, vec![]).as_text(), None);
}

#[test]
fn rules_run_on_values() {
    let unit = ();
    let text = Value::Text("é😂a".to_string());
    assert!(Rule::Length(Bounds { min: Some(3), max: Some(3) }).apply(&text, &unit).is_ok());
    assert!(Rule::Length(Bounds { min: Some(4), max: None }).apply(&text, &unit).is_err());
    assert!(Rule::ByteLength(Bounds { min: Some(7), max: Some(7) }).apply(&text, &unit).is_ok());
    assert!(Rule::ByteLength(Bounds { min: None, max: Some(6) }).apply(&text, &unit).is_err());
    assert!(Rule::Contains("😂".to_string()).apply(&text, &unit).is_ok());
    assert!(Rule::Prefix("é".to_string()).apply(&text, &unit).is_ok());
    assert!(Rule::Suffix("a".to_string()).apply(&text, &unit).is_ok());
    assert_eq!(message(Rule::Ascii.apply(&text, &unit)), Some("not ascii".to_string()));
    let number = Value::Integer(5);
    assert!(Rule::Range(Range { min: Some(5), max: Some(5) }).apply(&number, &unit).is_ok());
    assert_eq!(
        message(Rule::Contains("a".to_string()).apply(&number, &unit)),
        Some("does not contain \"a\"".to_string())
    );
    assert_eq!(
        message(Rule::Prefix("a".to_string()).apply(&number, &unit)),
        Some("does not begin with \"a\"".to_string())
    );
    assert_eq!(
        message(Rule::Suffix("a".to_string()).apply(&number, &unit)),
        Some("does not end with \"a\"".to_string())
    );
    assert_eq!(
        message(Rule::Length(Bounds { min: None, max: Some(9) }).apply(&number, &unit)),
        Some("length out of bounds".to_string())
    );
    assert_eq!(
        message(Rule::Range(Range { min: None, max: Some(9) }).apply(&text, &unit)),
        Some("value out of bounds".to_string())
    );
    assert_eq!(
        message(Rule::Alphanumeric.apply(&Value::Bytes(vec![]), &unit)),
        Some("not alphanumeric".to_string())
    );
}

fn field(name: &str, plan: Plan) -> Field {
    Field { name: name.to_string(), plan }
}

fn checks(optional: bool, required: bool, rules: Vec<Rule>) -> Checks {
    Checks { optional, required, rules, nested: None }
}

#[test]
fn sound_declaration_has_no_fault() {
    let shape = Shape::Composite(Composite {
        fields: vec![
            field("a", Plan::Check(checks(true, true, vec![Rule::Length(Bounds { min: Some(1), max: None })]))),
            field("b", Plan::Skip),
            field("c", Plan::Check(checks(false, false, vec![Rule::Range(Range { min: None, max: Some(3) })]))),
        ],
        allow_unvalidated: false,
    });
    assert_eq!(shape.check(), Ok(()));
}

#[test]
fn rule_without_bounds_is_a_fault() {
    for rule in [
        Rule::Length(Bounds { min: None, max: None }),
        Rule::ByteLength(Bounds { min: None, max: None }),
        Rule::Range(Range { min: None, max: None }),
    ] {
        assert!(!rule.has_bound());
        let shape = Shape::Sequence(Sequence { element: checks(false, false, vec![Rule::Ascii, rule]) });
        assert_eq!(shape.check(), Err(ConfigError::NoBounds));
    }
    assert!(Rule::Ascii.has_bound());
    assert!(Rule::Length(Bounds { min: None, max: Some(0) }).has_bound());
}

#[test]
fn required_on_what_cannot_be_absent_is_a_fault() {
    let shape = Shape::Composite(Composite {
        fields: vec![field("a", Plan::Check(checks(false, true, vec![])))],
        allow_unvalidated: false,
    });
    assert_eq!(shape.check(), Err(ConfigError::RequiredNotOptional));
    assert_eq!(checks(false, true, vec![]).check(), Err(ConfigError::RequiredNotOptional));
    assert_eq!(checks(true, true, vec![]).check(), Ok(()));
}

#[test]
fn unannotated_field_is_a_fault_unless_allowed() {
    let fields = || vec![field("a", Plan::Check(checks(false, false, vec![Rule::Ascii]))), field("b", Plan::Unannotated)];
    let strict = Shape::Composite(Composite { fields: fields(), allow_unvalidated: false });
    assert_eq!(strict.check(), Err(ConfigError::Unannotated));
    let lenient = Shape::Composite(Composite { fields: fields(), allow_unvalidated: true });
    assert_eq!(lenient.check(), Ok(()));
    let union = |allow_unvalidated| {
        Shape::Union(Union {
            variants: vec![
                Variant { name: "A".to_string(), fields: vec![] },
                Variant { name: "B".to_string(), fields: fields() },
            ],
            allow_unvalidated,
        })
    };
    assert_eq!(union(false).check(), Err(ConfigError::Unannotated));
    assert_eq!(union(true).check(), Ok(()));
}

#[test]
fn first_fault_in_declared_order_is_reported() {
    let nested = Shape::Composite(Composite {
        fields: vec![field("x", Plan::Unannotated)],
        allow_unvalidated: false,
    });
    let shape = Shape::Composite(Composite {
        fields: vec![
            field("a", Plan::Skip),
            field(
                "b",
                Plan::Check(Checks {
                    optional: false,
                    required: false,
                    rules: vec![Rule::Ascii],
                    nested: Some(Box::new(nested)),
                }),
            ),
            field("c", Plan::Check(checks(false, true, vec![]))),
            field("d", Plan::Check(checks(false, false, vec![Rule::Range(Range { min: None, max: None })]))),
        ],
        allow_unvalidated: false,
    });
    assert_eq!(shape.check(), Err(ConfigError::Unannotated));
    let both = checks(false, true, vec![Rule::Length(Bounds { min: None, max: None })]);
    assert_eq!(both.check(), Err(ConfigError::RequiredNotOptional));
}

#[test]
fn declarations_can_be_built_step_by_step() {
    let plain = Checks::of(vec![Rule::Ascii, Rule::Alphanumeric]);
    assert!(!plain.optional && !plain.required);
    assert_eq!(plain.rules.len(), 2);
    assert!(plain.nested.is_none());
    let optional = Checks::of(vec![]).optional();
    assert!(optional.optional && !optional.required);
    let required = Checks::of(vec![Rule::Ascii]).required();
    assert!(required.optional && required.required);
    assert_eq!(required.rules.len(), 1);
    assert_eq!(required.check(), Ok(()));
    let list = Checks::of(vec![Rule::Length(Bounds { min: Some(1), max: None })])
        .inner(Checks::of(vec![Rule::Ascii]));
    assert_eq!(list.rules.len(), 1);
    match list.nested.as_deref() {
        Some(Shape::Sequence(sequence)) => assert_eq!(sequence.element.rules.len(), 1),
        _ => panic!("inner checks are those of a list"),
    }
    let inside = Shape::Composite(Composite {
        fields: vec![Field::checked("x", Checks::of(vec![Rule::Ascii]))],
        allow_unvalidated: false,
    });
    let dive = Checks::of(vec![]).optional().dive(inside);
    assert!(dive.optional);
    assert!(matches!(dive.nested.as_deref(), Some(Shape::Composite(_))));
    let field = Field::checked("name", plain);
    assert_eq!(field.name, "name");
    assert!(matches!(field.plan, Plan::Check(_)));
    assert!(matches!(Field::skipped("s").plan, Plan::Skip));
    assert_eq!(Field::skipped("s").name, "s");
    assert!(matches!(Field::unannotated("u").plan, Plan::Unannotated));
    assert_eq!(Field::unannotated("u").name, "u");
}

#[test]
fn built_declaration_validates_like_one_written_out() {
    let shape = Shape::Composite(Composite {
        fields: vec![
            Field::checked(
                "items",
                Checks::of(vec![Rule::Length(Bounds { min: Some(1), max: None })])
                    .inner(Checks::of(vec![Rule::Ascii])),
            ),
            Field::checked("note", Checks::of(vec![Rule::Ascii]).required()),
            Field::skipped("rest"),
        ],
        allow_unvalidated: false,
    });
    assert_eq!(shape.check(), Ok(()));
    let value = Value::Composite(vec![
        Value::List(vec![Value::Text("é".to_string())]),
        Value::Absent,
        Value::Integer(1),
    ]);
    let report = shape.validate(&value, &()).unwrap_err();
    assert_eq!(report.render(), "items[0]: not ascii\nnote: value is required\n");
}
